//! How each shape of setting is edited: the text a value shows in its cells, the rows a list or
//! map shape holds, what typed text becomes, and how rows are added and removed.
use vstd::prelude::*;
use crate::catalog::{Shape, SettingDef, spec_empty_value, empty_value};
use crate::draft::{DraftValues, entry_get, entry_insert, entry_index};
use crate::flow::{block_text, spec_block_text};
use crate::text::{chars_of, owned, trim, trim_chars};
use crate::yaml::{
    YamlNumber, YamlValue, YamlView, NumberView, number_text, seq_view, pairs_view, lemma_seq_view,
    lemma_pairs_view, lemma_seq_view_ext, lemma_pairs_view_ext, untag, key_index, mapping_insert,
    mapping_swap_remove, mapping_insert_exec, mapping_swap_remove_exec, mapping_key_index,
};

verus! {

// ---------------------------------------------------------------------------------------------
// What a value shows as text.
// ---------------------------------------------------------------------------------------------

/// A scalar as the text a user would type: a string as itself, a boolean or number as YAML
/// writes it, null as nothing, and anything else as its block-style YAML, trimmed.
pub open spec fn spec_scalar_text(v: YamlView) -> Seq<char> {
    match v {
        YamlView::Text(s) => s,
        YamlView::Bool(b) => if b {
            seq!['t', 'r', 'u', 'e']
        } else {
            seq!['f', 'a', 'l', 's', 'e']
        },
        YamlView::Number(n) => number_text(n),
        YamlView::Null => Seq::empty(),
        _ => spec_block_text(v),
    }
}

/// A scalar as the text a user would type.
pub fn scalar_text(value: &YamlValue) -> (r: String)
    ensures
        r@ == spec_scalar_text(value@),
{
    match value {
        YamlValue::String(s) => s.clone(),
        YamlValue::Bool(b) => {
            let mut c: Vec<char> = Vec::new();
            if *b {
                c.push('t');
                c.push('r');
                c.push('u');
                c.push('e');
            } else {
                c.push('f');
                c.push('a');
                c.push('l');
                c.push('s');
                c.push('e');
            }
            crate::text::string_from_chars(c.as_slice())
        },
        YamlValue::Number(n) => n.to_text(),
        YamlValue::Null => String::new(),
        _ => block_text(value),
    }
}

/// The views of a list of texts.
pub open spec fn texts(v: Seq<String>) -> Seq<Seq<char>> {
    v.map_values(|s: String| s@)
}

/// A value as a list of cell texts: a sequence item by item, anything else as one cell.
pub open spec fn spec_string_list(v: YamlView) -> Seq<Seq<char>> {
    match v {
        YamlView::Sequence(items) => items.map_values(|x: YamlView| spec_scalar_text(x)),
        _ => seq![spec_scalar_text(v)],
    }
}

/// A value as a list of cell texts.
pub fn string_list(value: &YamlValue) -> (r: Vec<String>)
    ensures
        texts(r@) == spec_string_list(value@),
{
    match value {
        YamlValue::Sequence(items) => {
            proof {
                lemma_seq_view(items@);
            }
            let mut r: Vec<String> = Vec::new();
            let mut i: usize = 0;
            while i < items.len()
                invariant
                    i <= items@.len(),
                    r@.len() == i,
                    seq_view(items@).len() == items@.len(),
                    forall|k: int| 0 <= k < items@.len() ==> #[trigger] seq_view(items@)[k] == items@[k]@,
                    forall|k: int| 0 <= k < i ==> (#[trigger] r@[k])@ == spec_scalar_text(items@[k]@),
                decreases items@.len() - i,
            {
                r.push(scalar_text(&items[i]));
                i = i + 1;
            }
            assert(texts(r@) =~= seq_view(items@).map_values(|x: YamlView| spec_scalar_text(x)));
            r
        },
        _ => {
            let mut r: Vec<String> = Vec::new();
            r.push(scalar_text(value));
            assert(texts(r@) =~= seq![spec_scalar_text(value@)]);
            r
        },
    }
}

// ---------------------------------------------------------------------------------------------
// The rows of the list and map shapes.
// ---------------------------------------------------------------------------------------------

/// The view of a list of rows: each row's left cell and its right-hand cells.
pub open spec fn rows_view(r: Seq<(String, Vec<String>)>) -> Seq<(Seq<char>, Seq<Seq<char>>)> {
    r.map_values(|x: (String, Vec<String>)| (x.0@, texts(x.1@)))
}

/// Whether a shape is edited as a plain list, one cell per item.
pub open spec fn is_list_shape(shape: Shape) -> bool {
    shape == Shape::ListOfStrings || shape == Shape::ListOfNumbers || shape == Shape::CommandList
        || shape == Shape::ConfigRef
}

/// The rows of the one-key mappings among `items` (anything else is skipped): each mapping's
/// first key, and its value as one cell or, for `lists`, as a list of cells.
pub open spec fn first_entry_rows(items: Seq<YamlView>, lists: bool) -> Seq<
    (Seq<char>, Seq<Seq<char>>),
>
    decreases items.len(),
{
    if items.len() == 0 {
        Seq::empty()
    } else {
        let rest = first_entry_rows(items.drop_last(), lists);
        match untag(items.last()) {
            YamlView::Mapping(m) => if m.len() > 0 {
                rest.push(
                    (
                        spec_scalar_text(m[0].0),
                        if lists {
                            spec_string_list(m[0].1)
                        } else {
                            seq![spec_scalar_text(m[0].1)]
                        },
                    ),
                )
            } else {
                rest
            },
            _ => rest,
        }
    }
}

/// The rows a list or map shape holds, as (left cell, right-hand cells).
pub open spec fn spec_rows_of(shape: Shape, v: YamlView) -> Seq<(Seq<char>, Seq<Seq<char>>)> {
    if is_list_shape(shape) {
        match v {
            YamlView::Sequence(items) => items.map_values(
                |x: YamlView| (spec_scalar_text(x), Seq::<Seq<char>>::empty()),
            ),
            YamlView::Text(one) => seq![(one, Seq::<Seq<char>>::empty())],
            _ => Seq::empty(),
        }
    } else if shape == Shape::ListOfOneKeyMaps {
        match v {
            YamlView::Sequence(items) => first_entry_rows(items, false),
            _ => Seq::empty(),
        }
    } else if shape == Shape::Mapping {
        match v {
            YamlView::Mapping(m) => m.map_values(
                |e: (YamlView, YamlView)| (spec_scalar_text(e.0), seq![spec_scalar_text(e.1)]),
            ),
            _ => Seq::empty(),
        }
    } else if shape == Shape::MapOfLists {
        match v {
            YamlView::Mapping(m) => m.map_values(
                |e: (YamlView, YamlView)| (spec_scalar_text(e.0), spec_string_list(e.1)),
            ),
            YamlView::Sequence(items) => first_entry_rows(items, true),
            _ => Seq::empty(),
        }
    } else {
        Seq::empty()
    }
}

/// A map of lists written in Workbench's list form, a one-key mapping inside a sequence, shows
/// the same row as the mapping form: the key's text, then each item of its list in a cell of
/// its own.
pub proof fn lemma_map_of_lists_forms_agree(k: YamlView, items: Seq<YamlView>)
    ensures
        spec_rows_of(
            Shape::MapOfLists,
            YamlView::Sequence(seq![YamlView::Mapping(seq![(k, YamlView::Sequence(items))])]),
        ) == spec_rows_of(Shape::MapOfLists, YamlView::Mapping(seq![(k, YamlView::Sequence(items))])),
        spec_rows_of(
            Shape::MapOfLists,
            YamlView::Sequence(seq![YamlView::Mapping(seq![(k, YamlView::Sequence(items))])]),
        ) == seq![(spec_scalar_text(k), items.map_values(|x: YamlView| spec_scalar_text(x)))],
{
    let m = seq![(k, YamlView::Sequence(items))];
    let one = seq![YamlView::Mapping(m)];
    assert(one.drop_last() =~= Seq::<YamlView>::empty());
    assert(first_entry_rows(one.drop_last(), true) =~= Seq::empty());
    assert(one.last() == YamlView::Mapping(m));
    assert(untag(one.last()) == YamlView::Mapping(m));
    assert(m.len() > 0 && m[0] == (k, YamlView::Sequence(items)));
    let row = (spec_scalar_text(k), spec_string_list(YamlView::Sequence(items)));
    assert(first_entry_rows(one, true) =~= seq![row]);
    assert(!is_list_shape(Shape::MapOfLists));
    assert(spec_rows_of(Shape::MapOfLists, YamlView::Sequence(one)) == first_entry_rows(one, true));
    assert(m.map_values(|e: (YamlView, YamlView)| (spec_scalar_text(e.0), spec_string_list(e.1)))
        =~= seq![row]);
    assert(spec_rows_of(Shape::MapOfLists, YamlView::Mapping(m)) =~= seq![row]);
}

fn first_entry_rows_exec(items: &Vec<YamlValue>, lists: bool) -> (r: Vec<(String, Vec<String>)>)
    ensures
        rows_view(r@) == first_entry_rows(seq_view(items@), lists),
{
    proof {
        lemma_seq_view(items@);
    }
    let ghost sv = seq_view(items@);
    let mut r: Vec<(String, Vec<String>)> = Vec::new();
    let mut i: usize = 0;
    while i < items.len()
        invariant
            i <= items@.len(),
            sv == seq_view(items@),
            sv.len() == items@.len(),
            forall|k: int| 0 <= k < items@.len() ==> #[trigger] sv[k] == items@[k]@,
            rows_view(r@) == first_entry_rows(sv.subrange(0, i as int), lists),
        decreases items@.len() - i,
    {
        let ghost pre = sv.subrange(0, i as int);
        let ghost next = sv.subrange(0, i + 1);
        assert(next.drop_last() =~= pre);
        assert(next.last() == items@[i as int]@);
        let u = items[i].untagged();
        match u {
            YamlValue::Mapping(m) => {
                proof {
                    lemma_pairs_view(m@);
                }
                if m.len() > 0 {
                    let left = scalar_text(&m[0].0);
                    let right = if lists {
                        string_list(&m[0].1)
                    } else {
                        let mut one: Vec<String> = Vec::new();
                        one.push(scalar_text(&m[0].1));
                        assert(texts(one@) =~= seq![spec_scalar_text(m@[0].1@)]);
                        one
                    };
                    let ghost before = rows_view(r@);
                    r.push((left, right));
                    assert(rows_view(r@) =~= before.push((left@, texts(right@))));
                }
            },
            _ => {},
        }
        i = i + 1;
    }
    assert(sv.subrange(0, items@.len() as int) =~= sv);
    r
}

/// The rows a list or map shape holds: what the shared row editor shows.
pub fn rows_of(shape: Shape, value: &YamlValue) -> (r: Vec<(String, Vec<String>)>)
    ensures
        rows_view(r@) == spec_rows_of(shape, value@),
{
    let mut r: Vec<(String, Vec<String>)> = Vec::new();
    let list_shape = shape == Shape::ListOfStrings || shape == Shape::ListOfNumbers || shape
        == Shape::CommandList || shape == Shape::ConfigRef;
    if list_shape {
        match value {
            YamlValue::Sequence(items) => {
                proof {
                    lemma_seq_view(items@);
                }
                let mut i: usize = 0;
                while i < items.len()
                    invariant
                        i <= items@.len(),
                        r@.len() == i,
                        seq_view(items@).len() == items@.len(),
                        forall|k: int|
                            0 <= k < items@.len() ==> #[trigger] seq_view(items@)[k] == items@[k]@,
                        forall|k: int|
                            0 <= k < i ==> (#[trigger] r@[k]).0@ == spec_scalar_text(items@[k]@)
                                && texts(r@[k].1@) == Seq::<Seq<char>>::empty(),
                    decreases items@.len() - i,
                {
                    let e: Vec<String> = Vec::new();
                    assert(texts(e@) =~= Seq::<Seq<char>>::empty());
                    r.push((scalar_text(&items[i]), e));
                    i = i + 1;
                }
                assert(rows_view(r@) =~= seq_view(items@).map_values(
                    |x: YamlView| (spec_scalar_text(x), Seq::<Seq<char>>::empty()),
                ));
            },
            YamlValue::String(one) => {
                let e: Vec<String> = Vec::new();
                assert(texts(e@) =~= Seq::<Seq<char>>::empty());
                r.push((one.clone(), e));
                assert(rows_view(r@) =~= seq![(one@, Seq::<Seq<char>>::empty())]);
            },
            _ => {
                assert(rows_view(r@) =~= Seq::<(Seq<char>, Seq<Seq<char>>)>::empty());
            },
        }
        r
    } else if shape == Shape::ListOfOneKeyMaps {
        match value {
            YamlValue::Sequence(items) => first_entry_rows_exec(items, false),
            _ => {
                assert(rows_view(r@) =~= Seq::<(Seq<char>, Seq<Seq<char>>)>::empty());
                r
            },
        }
    } else if shape == Shape::Mapping || shape == Shape::MapOfLists {
        let lists = shape == Shape::MapOfLists;
        match value {
            YamlValue::Mapping(m) => {
                proof {
                    lemma_pairs_view(m@);
                }
                let mut i: usize = 0;
                while i < m.len()
                    invariant
                        i <= m@.len(),
                        r@.len() == i,
                        lists == (shape == Shape::MapOfLists),
                        pairs_view(m@).len() == m@.len(),
                        forall|k: int|
                            0 <= k < m@.len() ==> #[trigger] pairs_view(m@)[k] == (
                                m@[k].0@,
                                m@[k].1@,
                            ),
                        forall|k: int|
                            0 <= k < i ==> (#[trigger] r@[k]).0@ == spec_scalar_text(m@[k].0@)
                                && texts(r@[k].1@) == (if lists {
                                spec_string_list(m@[k].1@)
                            } else {
                                seq![spec_scalar_text(m@[k].1@)]
                            }),
                    decreases m@.len() - i,
                {
                    let left = scalar_text(&m[i].0);
                    let right = if lists {
                        string_list(&m[i].1)
                    } else {
                        let mut one: Vec<String> = Vec::new();
                        one.push(scalar_text(&m[i].1));
                        assert(texts(one@) =~= seq![spec_scalar_text(m@[i as int].1@)]);
                        one
                    };
                    r.push((left, right));
                    i = i + 1;
                }
                if lists {
                    assert(rows_view(r@) =~= pairs_view(m@).map_values(
                        |e: (YamlView, YamlView)| (spec_scalar_text(e.0), spec_string_list(e.1)),
                    ));
                } else {
                    assert(rows_view(r@) =~= pairs_view(m@).map_values(
                        |e: (YamlView, YamlView)|
                            (spec_scalar_text(e.0), seq![spec_scalar_text(e.1)]),
                    ));
                }
                r
            },
            YamlValue::Sequence(items) => {
                if lists {
                    first_entry_rows_exec(items, true)
                } else {
                    assert(rows_view(r@) =~= Seq::<(Seq<char>, Seq<Seq<char>>)>::empty());
                    r
                }
            },
            _ => {
                assert(rows_view(r@) =~= Seq::<(Seq<char>, Seq<Seq<char>>)>::empty());
                r
            },
        }
    } else {
        assert(rows_view(r@) =~= Seq::<(Seq<char>, Seq<Seq<char>>)>::empty());
        r
    }
}

// ---------------------------------------------------------------------------------------------
// What typed text becomes.
// ---------------------------------------------------------------------------------------------

/// Whether `c` is an ASCII decimal digit.
pub open spec fn is_ascii_digit(c: char) -> bool {
    '0' <= c && c <= '9'
}

/// Whether `s` is one or more ASCII decimal digits.
pub open spec fn all_digits(s: Seq<char>) -> bool {
    s.len() > 0 && forall|i: int| 0 <= i < s.len() ==> is_ascii_digit(#[trigger] s[i])
}

/// The number ASCII digits `s` write in decimal.
pub open spec fn digits_value(s: Seq<char>) -> nat
    decreases s.len(),
{
    if s.len() == 0 {
        0
    } else {
        digits_value(s.drop_last()) * 10 + ((s.last() as u32) - 48) as nat
    }
}

/// What `str::parse::<i64>` reads from `t`: an optional `+` or `-`, then one or more ASCII
/// digits, whose value fits in an `i64`; nothing otherwise.
pub open spec fn spec_parse_i64(t: Seq<char>) -> Option<int> {
    if t.len() > 0 && t[0] == '-' {
        let d = t.drop_first();
        if all_digits(d) && digits_value(d) <= 9223372036854775808 {
            Some(-(digits_value(d) as int))
        } else {
            None
        }
    } else if t.len() > 0 && t[0] == '+' {
        let d = t.drop_first();
        if all_digits(d) && digits_value(d) <= 9223372036854775807 {
            Some(digits_value(d) as int)
        } else {
            None
        }
    } else if all_digits(t) && digits_value(t) <= 9223372036854775807 {
        Some(digits_value(t) as int)
    } else {
        None
    }
}

proof fn lemma_digits_value_prefix(s: Seq<char>, k: int)
    requires
        0 <= k <= s.len(),
        forall|i: int| 0 <= i < s.len() ==> is_ascii_digit(#[trigger] s[i]),
    ensures
        digits_value(s.subrange(0, k)) <= digits_value(s),
    decreases s.len() - k,
{
    if k < s.len() {
        lemma_digits_value_prefix(s, k + 1);
        let next = s.subrange(0, k + 1);
        assert(next.drop_last() =~= s.subrange(0, k));
        assert(is_ascii_digit(next.last()));
    } else {
        assert(s.subrange(0, k) =~= s);
    }
}

/// The value of the digits `d[start..]`, when they are all digits and the value is at most
/// `limit`.
fn digits_up_to(d: &Vec<char>, start: usize, limit: u64) -> (r: Option<u64>)
    requires
        start <= d@.len(),
        limit >= 9,
    ensures
        ({
            let s = d@.subrange(start as int, d@.len() as int);
            match r {
                Some(n) => all_digits(s) && digits_value(s) == n && n <= limit,
                None => !(all_digits(s) && digits_value(s) <= limit),
            }
        }),
{
    let ghost s = d@.subrange(start as int, d@.len() as int);
    if start == d.len() {
        return None;
    }
    let mut acc: u64 = 0;
    let mut i: usize = start;
    while i < d.len()
        invariant
            start <= i <= d@.len(),
            start < d@.len(),
            s == d@.subrange(start as int, d@.len() as int),
            acc == digits_value(d@.subrange(start as int, i as int)),
            acc <= limit,
            limit >= 9,
            forall|k: int| start <= k < i ==> is_ascii_digit(#[trigger] d@[k]),
        decreases d@.len() - i,
    {
        let c = d[i];
        let ghost pre = d@.subrange(start as int, i as int);
        let ghost next = d@.subrange(start as int, i + 1);
        assert(next.drop_last() =~= pre);
        assert(next.last() == c);
        if !('0' <= c && c <= '9') {
            assert(s[i - start] == c);
            return None;
        }
        let dv: u64 = (c as u32 - 48) as u64;
        if acc > (limit - dv) / 10 {
            proof {
                assert(acc * 10 + dv > limit) by (nonlinear_arith)
                    requires
                        acc > (limit - dv) / 10,
                        dv <= 9,
                        dv <= limit,
                ;
                if forall|k: int| 0 <= k < s.len() ==> is_ascii_digit(#[trigger] s[k]) {
                    lemma_digits_value_prefix(s, (i + 1 - start) as int);
                    assert(s.subrange(0, (i + 1 - start) as int) =~= next);
                }
            }
            return None;
        }
        proof {
            assert(acc * 10 + dv <= limit) by (nonlinear_arith)
                requires
                    acc <= (limit - dv) / 10,
                    dv <= limit,
            ;
        }
        acc = acc * 10 + dv;
        i = i + 1;
    }
    proof {
        assert(d@.subrange(start as int, i as int) =~= s);
        assert forall|k: int| 0 <= k < s.len() implies is_ascii_digit(#[trigger] s[k]) by {
            assert(s[k] == d@[start + k]);
        }
    }
    Some(acc)
}

/// `str::parse::<i64>`, computed.
pub fn parse_i64(t: &Vec<char>) -> (r: Option<i64>)
    ensures
        match r {
            Some(n) => spec_parse_i64(t@) == Some(n as int),
            None => spec_parse_i64(t@) is None,
        },
{
    if t.len() > 0 && t[0] == '-' {
        assert(t@.subrange(1, t@.len() as int) =~= t@.drop_first());
        match digits_up_to(t, 1, 9223372036854775808) {
            Some(n) => {
                if n == 9223372036854775808 {
                    Some(i64::MIN)
                } else {
                    Some(-(n as i64))
                }
            },
            None => None,
        }
    } else if t.len() > 0 && t[0] == '+' {
        assert(t@.subrange(1, t@.len() as int) =~= t@.drop_first());
        match digits_up_to(t, 1, 9223372036854775807) {
            Some(n) => Some(n as i64),
            None => None,
        }
    } else {
        assert(t@.subrange(0, t@.len() as int) =~= t@);
        match digits_up_to(t, 0, 9223372036854775807) {
            Some(n) => Some(n as i64),
            None => None,
        }
    }
}

/// What a typed cell becomes: for a numeric cell, the integer its trimmed text reads as, else
/// the text as a string; a non-numeric cell is always the text as a string.
pub open spec fn spec_parse_scalar(text: Seq<char>, numeric: bool) -> YamlView {
    if numeric {
        match spec_parse_i64(trim(text)) {
            Some(n) => YamlView::Number(NumberView::Int(n)),
            None => YamlView::Text(text),
        }
    } else {
        YamlView::Text(text)
    }
}

/// A typed cell back into YAML. Numbers stay numbers, so `500` does not become `"500"`.
pub fn parse_scalar(text: &str, numeric: bool) -> (r: YamlValue)
    ensures
        r@ == spec_parse_scalar(text@, numeric),
{
    if numeric {
        let cs = chars_of(text);
        let t = trim_chars(&cs);
        match parse_i64(&t) {
            Some(n) => {
                if n >= 0 {
                    YamlValue::Number(YamlNumber::PosInt(n as u64))
                } else {
                    YamlValue::Number(YamlNumber::NegInt(n))
                }
            },
            None => YamlValue::String(owned(text)),
        }
    } else {
        YamlValue::String(owned(text))
    }
}

// ---------------------------------------------------------------------------------------------
// Adding and removing rows.
// ---------------------------------------------------------------------------------------------

/// The mapping after inserting each entry of `entries` in turn.
pub open spec fn insert_all(m: Seq<(YamlView, YamlView)>, entries: Seq<(YamlView, YamlView)>) -> Seq<
    (YamlView, YamlView),
>
    decreases entries.len(),
{
    if entries.len() == 0 {
        m
    } else {
        let before = insert_all(m, entries.drop_last());
        mapping_insert(before, entries.last().0, entries.last().1)
    }
}

/// The entries of the mappings among `items` (tags looked through), merged in order.
pub open spec fn merged_items(items: Seq<YamlView>) -> Seq<(YamlView, YamlView)>
    decreases items.len(),
{
    if items.len() == 0 {
        Seq::empty()
    } else {
        let m = merged_items(items.drop_last());
        match untag(items.last()) {
            YamlView::Mapping(e) => insert_all(m, e),
            _ => m,
        }
    }
}

/// The list-of-one-key-maps form that Workbench also accepts for a map, flattened into one
/// mapping; anything that is not a sequence flattens to nothing.
pub open spec fn spec_normalise_to_mapping(v: YamlView) -> Seq<(YamlView, YamlView)> {
    match v {
        YamlView::Sequence(items) => merged_items(items),
        _ => Seq::empty(),
    }
}

fn insert_all_exec(m: &mut Vec<(YamlValue, YamlValue)>, entries: &Vec<(YamlValue, YamlValue)>)
    ensures
        pairs_view(final(m)@) == insert_all(pairs_view(old(m)@), pairs_view(entries@)),
{
    proof {
        lemma_pairs_view(entries@);
    }
    let ghost start = pairs_view(m@);
    let ghost ev = pairs_view(entries@);
    let mut i: usize = 0;
    while i < entries.len()
        invariant
            i <= entries@.len(),
            ev == pairs_view(entries@),
            ev.len() == entries@.len(),
            forall|k: int|
                0 <= k < entries@.len() ==> #[trigger] ev[k] == (entries@[k].0@, entries@[k].1@),
            pairs_view(m@) == insert_all(start, ev.subrange(0, i as int)),
        decreases entries@.len() - i,
    {
        let ghost next = ev.subrange(0, i + 1);
        assert(next.drop_last() =~= ev.subrange(0, i as int));
        assert(next.last() == ev[i as int]);
        let k = entries[i].0.copy();
        let v = entries[i].1.copy();
        mapping_insert_exec(m, k, v);
        i = i + 1;
    }
    assert(ev.subrange(0, entries@.len() as int) =~= ev);
}

/// Flattens a list of one-key maps into one mapping.
pub fn normalise_to_mapping(value: &YamlValue) -> (r: Vec<(YamlValue, YamlValue)>)
    ensures
        pairs_view(r@) == spec_normalise_to_mapping(value@),
{
    let mut out: Vec<(YamlValue, YamlValue)> = Vec::new();
    proof {
        lemma_pairs_view(out@);
        assert(pairs_view(out@) =~= Seq::<(YamlView, YamlView)>::empty());
    }
    match value {
        YamlValue::Sequence(items) => {
            proof {
                lemma_seq_view(items@);
            }
            let ghost sv = seq_view(items@);
            let mut i: usize = 0;
            while i < items.len()
                invariant
                    i <= items@.len(),
                    sv == seq_view(items@),
                    sv.len() == items@.len(),
                    forall|k: int| 0 <= k < items@.len() ==> #[trigger] sv[k] == items@[k]@,
                    pairs_view(out@) == merged_items(sv.subrange(0, i as int)),
                decreases items@.len() - i,
            {
                let ghost next = sv.subrange(0, i + 1);
                assert(next.drop_last() =~= sv.subrange(0, i as int));
                assert(next.last() == items@[i as int]@);
                match items[i].untagged() {
                    YamlValue::Mapping(m) => {
                        insert_all_exec(&mut out, m);
                    },
                    _ => {},
                }
                i = i + 1;
            }
            assert(sv.subrange(0, items@.len() as int) =~= sv);
        },
        _ => {},
    }
    out
}

/// Whether turning `v` into a sequence would stop the program: a tagged value whose untagged
/// form is already a sequence is taken for one, and then found not to be one.
pub open spec fn sequence_coercion_fails(v: YamlView) -> bool {
    v is Tagged && untag(v) is Sequence
}

/// The items of `v` when it is a sequence, else none (what coercing it to a sequence keeps).
pub open spec fn coerced_items(v: YamlView) -> Seq<YamlView> {
    match v {
        YamlView::Sequence(items) => items,
        _ => Seq::empty(),
    }
}

/// `value`, coerced to a sequence, with `item` appended.
fn push_item(value: YamlValue, item: YamlValue) -> (r: YamlValue)
    requires
        !sequence_coercion_fails(value@),
    ensures
        r@ == YamlView::Sequence(coerced_items(value@).push(item@)),
{
    let ghost iv = item@;
    match value {
        YamlValue::Sequence(items) => {
            let mut items = items;
            let ghost before = items@;
            proof {
                lemma_seq_view(before);
            }
            items.push(item);
            proof {
                lemma_seq_view(items@);
                lemma_seq_view_ext(items@, seq_view(before).push(iv));
            }
            YamlValue::Sequence(items)
        },
        _ => {
            let mut items: Vec<YamlValue> = Vec::new();
            items.push(item);
            proof {
                lemma_seq_view(items@);
                lemma_seq_view_ext(items@, Seq::<YamlView>::empty().push(iv));
            }
            YamlValue::Sequence(items)
        },
    }
}

/// The empty text as YAML.
pub open spec fn blank() -> YamlView {
    YamlView::Text(Seq::empty())
}

/// A setting's value after the row editor's Add: a map gets an entry with an empty key (its
/// value an empty text, or a list of one for a map of lists), after flattening a list-of-maps
/// form into a mapping; a list gets an empty item of its kind.
pub open spec fn spec_pushed_row(shape: Shape, cur: YamlView) -> YamlView {
    if shape == Shape::Mapping || shape == Shape::MapOfLists {
        let m = match cur {
            YamlView::Mapping(m) => m,
            _ => spec_normalise_to_mapping(cur),
        };
        let fresh = if shape == Shape::MapOfLists {
            YamlView::Sequence(seq![blank()])
        } else {
            blank()
        };
        YamlView::Mapping(mapping_insert(m, blank(), fresh))
    } else if shape == Shape::ListOfOneKeyMaps {
        YamlView::Sequence(coerced_items(cur).push(YamlView::Mapping(seq![(blank(), blank())])))
    } else if shape == Shape::ListOfNumbers {
        YamlView::Sequence(coerced_items(cur).push(YamlView::Number(NumberView::Int(0))))
    } else {
        YamlView::Sequence(coerced_items(cur).push(blank()))
    }
}

/// The value a setting currently has, or the empty value of its shape when it is not set.
pub open spec fn current_or_empty(s: Seq<(Seq<char>, YamlView)>, key: Seq<char>, shape: Shape) -> YamlView {
    match entry_get(s, key) {
        Some(v) => v,
        None => spec_empty_value(shape),
    }
}

/// Whether the row editor's Add can run on the setting: a list shape needs a value that can be
/// coerced to a sequence.
pub open spec fn push_row_allowed(s: Seq<(Seq<char>, YamlView)>, key: Seq<char>, shape: Shape) -> bool {
    (shape == Shape::Mapping || shape == Shape::MapOfLists) || !sequence_coercion_fails(
        current_or_empty(s, key, shape),
    )
}

/// The row editor's Add: the setting (added, empty, if it was not there) gets one more row.
pub fn push_row(values: &mut DraftValues, def: &SettingDef)
    requires
        push_row_allowed(old(values).view_entries(), def.key@, def.shape),
    ensures
        final(values).view_entries() == entry_insert(
            old(values).view_entries(),
            def.key@,
            spec_pushed_row(def.shape, current_or_empty(old(values).view_entries(), def.key@, def.shape)),
        ),
{
    let current = match values.get(def.key.as_str()) {
        Some(v) => v.copy(),
        None => empty_value(def.shape),
    };
    let ghost cur = current@;
    let shape = def.shape;
    let next = if shape == Shape::Mapping || shape == Shape::MapOfLists {
        let mut m = match current {
            YamlValue::Mapping(m) => m,
            other => normalise_to_mapping(&other),
        };
        let fresh = if shape == Shape::MapOfLists {
            let mut one: Vec<YamlValue> = Vec::new();
            one.push(YamlValue::String(String::new()));
            proof {
                lemma_seq_view(one@);
                lemma_seq_view_ext(one@, seq![blank()]);
            }
            YamlValue::Sequence(one)
        } else {
            YamlValue::String(String::new())
        };
        mapping_insert_exec(&mut m, YamlValue::String(String::new()), fresh);
        YamlValue::Mapping(m)
    } else if shape == Shape::ListOfOneKeyMaps {
        let mut e: Vec<(YamlValue, YamlValue)> = Vec::new();
        e.push((YamlValue::String(String::new()), YamlValue::String(String::new())));
        proof {
            lemma_pairs_view(e@);
            lemma_pairs_view_ext(e@, seq![(blank(), blank())]);
        }
        push_item(current, YamlValue::Mapping(e))
    } else if shape == Shape::ListOfNumbers {
        push_item(current, YamlValue::Number(YamlNumber::PosInt(0)))
    } else {
        push_item(current, YamlValue::String(String::new()))
    };
    assert(next@ == spec_pushed_row(shape, cur));
    values.insert(def.key.clone(), next);
}

/// A map of lists after the Add of row `row`'s list: that row's value, coerced to a sequence,
/// gets an empty item; nothing happens to anything but a mapping, or past its last row.
pub open spec fn spec_pushed_inner_item(v: YamlView, row: int) -> YamlView {
    match v {
        YamlView::Mapping(m) => if 0 <= row < m.len() {
            YamlView::Mapping(
                m.update(row, (m[row].0, YamlView::Sequence(coerced_items(m[row].1).push(blank())))),
            )
        } else {
            v
        },
        _ => v,
    }
}

/// Whether the Add inside row `row` can run: that row's value must be coercible to a sequence.
pub open spec fn push_inner_item_allowed(v: Option<YamlView>, row: int) -> bool {
    match v {
        Some(YamlView::Mapping(m)) => 0 <= row < m.len() ==> !sequence_coercion_fails(m[row].1),
        _ => true,
    }
}

/// The Add inside row `row` of a map of lists.
pub fn push_inner_item(values: &mut DraftValues, key: &str, row: usize)
    requires
        push_inner_item_allowed(entry_get(old(values).view_entries(), key@), row as int),
    ensures
        final(values).view_entries() == match entry_get(old(values).view_entries(), key@) {
            Some(v) => entry_insert(
                old(values).view_entries(),
                key@,
                spec_pushed_inner_item(v, row as int),
            ),
            None => old(values).view_entries(),
        },
{
    let current = match values.get(key) {
        Some(v) => v.copy(),
        None => {
            return;
        },
    };
    let ghost cur = current@;
    let next = match current {
        YamlValue::Mapping(m) => {
            let mut m = m;
            proof {
                lemma_pairs_view(m@);
            }
            if row < m.len() {
                let ghost pv = pairs_view(m@);
                let k = m[row].0.copy();
                let v = m[row].1.copy();
                let pushed = push_item(v, YamlValue::String(String::new()));
                m.set(row, (k, pushed));
                proof {
                    lemma_pairs_view(m@);
                    assert(pairs_view(m@) =~= pv.update(
                        row as int,
                        (pv[row as int].0, YamlView::Sequence(coerced_items(pv[row as int].1).push(blank()))),
                    ));
                }
            }
            YamlValue::Mapping(m)
        },
        other => other,
    };
    assert(next@ == spec_pushed_inner_item(cur, row as int));
    values.insert(owned(key), next);
}

/// A list or map after its row `row` is removed: a sequence loses that item, the others keeping
/// their order; a mapping loses the entry under that row's key, the last entry moving into its
/// place; anything else, or a row past the end, is left alone.
pub open spec fn spec_removed_row(v: YamlView, row: int) -> YamlView {
    match v {
        YamlView::Sequence(items) => if 0 <= row < items.len() {
            YamlView::Sequence(items.remove(row))
        } else {
            v
        },
        YamlView::Mapping(m) => if 0 <= row < m.len() {
            YamlView::Mapping(mapping_swap_remove(m, key_index(m, m[row].0)->0))
        } else {
            v
        },
        _ => v,
    }
}

/// The row editor's remove button on row `row`.
pub fn remove_row(values: &mut DraftValues, key: &str, row: usize)
    ensures
        final(values).view_entries() == match entry_get(old(values).view_entries(), key@) {
            Some(v) => entry_insert(old(values).view_entries(), key@, spec_removed_row(v, row as int)),
            None => old(values).view_entries(),
        },
{
    let current = match values.get(key) {
        Some(v) => v.copy(),
        None => {
            return;
        },
    };
    let ghost cur = current@;
    let next = match current {
        YamlValue::Sequence(items) => {
            let ghost orig = items@;
            assert(cur == YamlView::Sequence(seq_view(orig)));
            proof {
                lemma_seq_view(orig);
            }
            let mut items = items;
            if row < items.len() {
                let ghost before = items@;
                proof {
                    lemma_seq_view(before);
                }
                let _gone = items.remove(row);
                proof {
                    assert(items@ =~= before.remove(row as int));
                    let target = seq_view(before).remove(row as int);
                    assert forall|j: int| 0 <= j < items@.len() implies crate::yaml::value_view(
                        #[trigger] items@[j],
                    ) == target[j] by {
                        if j < row {
                            assert(items@[j] == before[j]);
                            assert(seq_view(before)[j] == crate::yaml::value_view(before[j]));
                        } else {
                            assert(items@[j] == before[j + 1]);
                            assert(seq_view(before)[j + 1] == crate::yaml::value_view(before[j + 1]));
                        }
                    }
                    lemma_seq_view_ext(items@, target);
                }
            }
            let r = YamlValue::Sequence(items);
            assert(r@ == spec_removed_row(cur, row as int));
            r
        },
        YamlValue::Mapping(m) => {
            let mut m = m;
            proof {
                lemma_pairs_view(m@);
            }
            if row < m.len() {
                let ghost pv = pairs_view(m@);
                let k = m[row].0.copy();
                proof {
                    assert(pv[row as int].0 == k@);
                    crate::yaml::lemma_key_index(pv, k@);
                }
                match mapping_key_index(&m, &k) {
                    Some(at) => {
                        mapping_swap_remove_exec(&mut m, at);
                    },
                    None => {
                        assert(pv[row as int].0 != k@);
                    },
                }
            }
            let r = YamlValue::Mapping(m);
            assert(r@ == spec_removed_row(cur, row as int));
            r
        },
        other => other,
    };
    assert(next@ == spec_removed_row(cur, row as int));
    values.insert(owned(key), next);
}

/// The value a newly added setting starts with: the catalogue's default, or the empty value
/// of its shape when the default is null.
pub open spec fn seed_value(def: SettingDef) -> YamlView {
    if untag(def.default@) is Null {
        spec_empty_value(def.shape)
    } else {
        def.default@
    }
}

/// Adds a setting from the catalogue, seeded with its default; a setting already present is
/// left as it is.
pub fn add_setting(values: &mut DraftValues, def: &SettingDef)
    ensures
        entry_index(old(values).view_entries(), def.key@) is Some ==> final(values).view_entries()
            == old(values).view_entries(),
        entry_index(old(values).view_entries(), def.key@) is None ==> final(values).view_entries()
            == entry_insert(old(values).view_entries(), def.key@, seed_value(*def)),
{
    if values.contains_key(def.key.as_str()) {
        return;
    }
    let seed = if def.default.untagged().is_null() {
        empty_value(def.shape)
    } else {
        def.default.copy()
    };
    values.insert(def.key.clone(), seed);
}

/// Removes a setting, the others keeping their order.
pub fn remove_setting(values: &mut DraftValues, key: &str)
    ensures
        final(values).view_entries() == crate::draft::entry_remove(old(values).view_entries(), key@),
{
    values.shift_remove(key);
}

/// The settings after adding `def` from the catalogue: unchanged when its key is present,
/// else with the key appended, seeded with its default.
pub open spec fn spec_added(s: Seq<(Seq<char>, YamlView)>, def: SettingDef) -> Seq<(Seq<char>, YamlView)> {
    if entry_index(s, def.key@) is Some {
        s
    } else {
        entry_insert(s, def.key@, seed_value(def))
    }
}

/// The settings after adding each of `defs` in turn.
pub open spec fn spec_added_all(s: Seq<(Seq<char>, YamlView)>, defs: Seq<&SettingDef>) -> Seq<
    (Seq<char>, YamlView),
>
    decreases defs.len(),
{
    if defs.len() == 0 {
        s
    } else {
        spec_added(spec_added_all(s, defs.drop_last()), *defs.last())
    }
}

/// The settings after a task template: the task's catalogue entry added when there is one,
/// `task` set to the task's name, then each of `extras` added in order.
pub open spec fn spec_apply_template(
    s: Seq<(Seq<char>, YamlView)>,
    task_def: Option<SettingDef>,
    task: Seq<char>,
    extras: Seq<&SettingDef>,
) -> Seq<(Seq<char>, YamlView)> {
    let with_def = match task_def {
        Some(d) => spec_added(s, d),
        None => s,
    };
    spec_added_all(entry_insert(with_def, "task"@, YamlView::Text(task)), extras)
}

/// A task template: the `task` setting (added from its catalogue entry when there is one) set
/// to `task`, then each setting of `extras` added with its default.
pub fn apply_template(
    values: &mut DraftValues,
    task_def: Option<&SettingDef>,
    task: &str,
    extras: &Vec<&SettingDef>,
)
    ensures
        final(values).view_entries() == spec_apply_template(
            old(values).view_entries(),
            match task_def {
                Some(d) => Some(*d),
                None => None,
            },
            task@,
            extras@,
        ),
        entry_get(final(values).view_entries(), "task"@) == Some(YamlView::Text(task@)) || exists|
            i: int,
        | 0 <= i < extras@.len() && extras@[i].key@ == "task"@,
        forall|i: int|
            0 <= i < extras@.len() ==> entry_index(
                final(values).view_entries(),
                (#[trigger] extras@[i]).key@,
            ) is Some,
        forall|k: Seq<char>|
            entry_index(old(values).view_entries(), k) is Some ==> entry_index(
                final(values).view_entries(),
                k,
            ) is Some,
{
    let ghost start = values.view_entries();
    match task_def {
        Some(d) => add_setting(values, d),
        None => {},
    }
    let ghost mid = values.view_entries();
    proof {
        assert forall|k: Seq<char>| #[trigger] entry_index(start, k) is Some implies entry_index(
            mid,
            k,
        ) is Some by {
            match task_def {
                Some(d) => {
                    if entry_index(start, d.key@) is None {
                        lemma_insert_keeps(start, d.key@, seed_value(*d), k);
                    }
                },
                None => {},
            }
        }
    }
    values.insert(owned("task"), YamlValue::String(owned(task)));
    let ghost base = values.view_entries();
    proof {
        let after = values.view_entries();
        assert forall|k: Seq<char>| #[trigger] entry_index(start, k) is Some implies entry_index(
            after,
            k,
        ) is Some by {
            lemma_insert_keeps(mid, "task"@, YamlView::Text(task@), k);
        }
        lemma_insert_get(mid, "task"@, YamlView::Text(task@));
    }
    let mut i: usize = 0;
    while i < extras.len()
        invariant
            i <= extras@.len(),
            forall|j: int|
                0 <= j < i ==> entry_index(values.view_entries(), (#[trigger] extras@[j]).key@) is Some,
            forall|k: Seq<char>|
                entry_index(old(values).view_entries(), k) is Some ==> entry_index(
                    values.view_entries(),
                    k,
                ) is Some,
            crate::draft::keys_unique(values.view_entries()),
            values.view_entries() == spec_added_all(base, extras@.subrange(0, i as int)),
            (forall|j: int| 0 <= j < i ==> extras@[j].key@ != "task"@) ==> entry_get(
                values.view_entries(),
                "task"@,
            ) == Some(YamlView::Text(task@)),
        decreases extras@.len() - i,
    {
        let ghost before = values.view_entries();
        add_setting(values, extras[i]);
        let _ = values.entries();
        proof {
            assert(extras@.subrange(0, i + 1).drop_last() =~= extras@.subrange(0, i as int));
            assert(extras@.subrange(0, i + 1).last() == extras@[i as int]);
            let after = values.view_entries();
            let dk = extras@[i as int].key@;
            if entry_index(before, dk) is None {
                assert forall|k: Seq<char>| #[trigger] entry_index(before, k) is Some implies entry_index(
                    after,
                    k,
                ) is Some by {
                    lemma_insert_keeps(before, dk, seed_value(*extras@[i as int]), k);
                }
                lemma_insert_keeps(before, dk, seed_value(*extras@[i as int]), dk);
                if dk != "task"@ {
                    lemma_insert_other(before, dk, seed_value(*extras@[i as int]), "task"@);
                }
            }
        }
        i = i + 1;
    }
    assert(extras@.subrange(0, extras@.len() as int) =~= extras@);
}

/// Inserting under a key and then reading it gives back what was inserted.
pub proof fn lemma_insert_get(s: Seq<(Seq<char>, YamlView)>, k: Seq<char>, v: YamlView)
    requires
        crate::draft::keys_unique(s),
    ensures
        entry_get(entry_insert(s, k, v), k) == Some(v),
{
    let t = entry_insert(s, k, v);
    match entry_index(s, k) {
        Some(i) => {
            assert(s[i].0 == k);
            assert(crate::draft::keys_unique(t)) by {
                assert forall|a: int, b: int| 0 <= a < b < t.len() implies (#[trigger] t[a]).0
                    != (#[trigger] t[b]).0 by {
                    assert(s[a].0 != s[b].0);
                }
            }
            crate::draft::lemma_entry_index(t, k, i);
        },
        None => {
            assert(crate::draft::keys_unique(t)) by {
                assert forall|a: int, b: int| 0 <= a < b < t.len() implies (#[trigger] t[a]).0
                    != (#[trigger] t[b]).0 by {
                    if b == s.len() {
                        assert(t[a] == s[a]);
                        if s[a].0 == k {
                            assert(exists|j: int| 0 <= j < s.len() && s[j].0 == k);
                        }
                    } else {
                        assert(s[a].0 != s[b].0);
                    }
                }
            }
            crate::draft::lemma_entry_index(t, k, s.len() as int);
        },
    }
}

/// Inserting keeps every key that was there, and adds the inserted one.
pub proof fn lemma_insert_keeps(s: Seq<(Seq<char>, YamlView)>, k: Seq<char>, v: YamlView, q: Seq<char>)
    requires
        entry_index(s, q) is Some || q == k,
    ensures
        entry_index(entry_insert(s, k, v), q) is Some,
{
    let t = entry_insert(s, k, v);
    match entry_index(s, k) {
        Some(i) => {
            if q == k {
                assert(t[i].0 == k);
            } else {
                let j = choose|j: int| 0 <= j < s.len() && s[j].0 == q;
                assert(t[j].0 == q);
            }
        },
        None => {
            if q == k {
                assert(t[s.len() as int].0 == k);
            } else {
                let j = choose|j: int| 0 <= j < s.len() && s[j].0 == q;
                assert(t[j].0 == q);
            }
        },
    }
}

/// Inserting under one key leaves the value under another as it was.
pub proof fn lemma_insert_other(s: Seq<(Seq<char>, YamlView)>, k: Seq<char>, v: YamlView, q: Seq<char>)
    requires
        q != k,
        crate::draft::keys_unique(s),
    ensures
        entry_get(entry_insert(s, k, v), q) == entry_get(s, q),
{
    let t = entry_insert(s, k, v);
    assert(crate::draft::keys_unique(t)) by {
        match entry_index(s, k) {
            Some(i) => {
                assert forall|a: int, b: int| 0 <= a < b < t.len() implies (#[trigger] t[a]).0
                    != (#[trigger] t[b]).0 by {
                    if a == i || b == i {
                        assert(s[i].0 == k);
                        assert(s[a].0 != s[b].0);
                    } else {
                        assert(s[a].0 != s[b].0);
                    }
                }
            },
            None => {
                assert forall|a: int, b: int| 0 <= a < b < t.len() implies (#[trigger] t[a]).0
                    != (#[trigger] t[b]).0 by {
                    if b == s.len() {
                        assert(t[a] == s[a]);
                        if s[a].0 == k {
                            assert(exists|j: int| 0 <= j < s.len() && s[j].0 == k);
                        }
                    } else {
                        assert(s[a].0 != s[b].0);
                    }
                }
            },
        }
    }
    match entry_index(s, q) {
        Some(j) => {
            assert(t[j] == s[j]) by {
                match entry_index(s, k) {
                    Some(i) => {
                        assert(s[i].0 == k);
                        assert(i != j);
                    },
                    None => {},
                }
            }
            crate::draft::lemma_entry_index(t, q, j);
        },
        None => {
            if exists|j: int| 0 <= j < t.len() && t[j].0 == q {
                let j = choose|j: int| 0 <= j < t.len() && t[j].0 == q;
                match entry_index(s, k) {
                    Some(i) => {
                        if j != i {
                            assert(t[j] == s[j]);
                        }
                    },
                    None => {
                        if j < s.len() {
                            assert(t[j] == s[j]);
                        }
                    },
                }
            }
        },
    }
}

// ---------------------------------------------------------------------------------------------
// Reading the widgets back into a value.
// ---------------------------------------------------------------------------------------------

/// What a setting's widgets hold, read by their ids: the field `key`, the select `key`, one
/// cell `key#i` per row, the key and value cells `key#i#k` and `key#i#v` of each row, and the
/// key cell and list cells `key#i#l#j` of each row of a map of lists.
pub struct WidgetReads {
    pub text: String,
    pub selected: Option<String>,
    pub cells: Vec<String>,
    pub pairs: Vec<(String, String)>,
    pub lists: Vec<(String, Vec<String>)>,
}

/// A plain list, a command list or a list of config paths keeps every cell as the text typed,
/// in order: a cell that looks like a number stays text.
pub proof fn lemma_text_lists_keep_cells(
    shape: Shape,
    text: Seq<char>,
    selected: Option<Seq<char>>,
    cells: Seq<Seq<char>>,
    pairs: Seq<(Seq<char>, Seq<char>)>,
    lists: Seq<(Seq<char>, Seq<Seq<char>>)>,
)
    requires
        shape == Shape::ListOfStrings || shape == Shape::CommandList || shape == Shape::ConfigRef,
    ensures
        spec_value_from_widgets(shape, text, selected, cells, pairs, lists) matches Some(
            YamlView::Sequence(items),
        ) && items.len() == cells.len() && forall|i: int|
            0 <= i < cells.len() ==> #[trigger] items[i] == YamlView::Text(cells[i]),
{
}

/// The mapping that typed (key, value) rows make: each row inserted in turn, so a later row
/// with the same key wins in the earlier row's place.
pub open spec fn typed_mapping(rows: Seq<(YamlView, YamlView)>) -> Seq<(YamlView, YamlView)> {
    insert_all(Seq::empty(), rows)
}

/// The value a setting's widgets describe, for its shape; `None` for a switch, which writes to
/// the config directly.
pub open spec fn spec_value_from_widgets(
    shape: Shape,
    text: Seq<char>,
    selected: Option<Seq<char>>,
    cells: Seq<Seq<char>>,
    pairs: Seq<(Seq<char>, Seq<char>)>,
    lists: Seq<(Seq<char>, Seq<Seq<char>>)>,
) -> Option<YamlView> {
    if shape == Shape::Boolean {
        None
    } else if shape == Shape::Integer {
        Some(spec_parse_scalar(text, true))
    } else if shape == Shape::Enum || shape == Shape::NullableEnum {
        Some(
            match selected {
                Some(v) => if v.len() == 0 {
                    YamlView::Null
                } else {
                    YamlView::Text(v)
                },
                None => YamlView::Null,
            },
        )
    } else if shape == Shape::String || shape == Shape::Delimiter || shape == Shape::FilePath
        || shape == Shape::Url || shape == Shape::TemplateString {
        Some(YamlView::Text(text))
    } else if shape == Shape::ListOfStrings || shape == Shape::CommandList || shape
        == Shape::ConfigRef {
        Some(YamlView::Sequence(cells.map_values(|c: Seq<char>| YamlView::Text(c))))
    } else if shape == Shape::ListOfNumbers {
        Some(YamlView::Sequence(cells.map_values(|c: Seq<char>| spec_parse_scalar(c, true))))
    } else if shape == Shape::ListOfOneKeyMaps {
        Some(
            YamlView::Sequence(
                pairs.map_values(
                    |p: (Seq<char>, Seq<char>)|
                        YamlView::Mapping(seq![(YamlView::Text(p.0), YamlView::Text(p.1))]),
                ),
            ),
        )
    } else if shape == Shape::Mapping {
        Some(
            YamlView::Mapping(
                typed_mapping(
                    pairs.map_values(
                        |p: (Seq<char>, Seq<char>)| (YamlView::Text(p.0), YamlView::Text(p.1)),
                    ),
                ),
            ),
        )
    } else {
        Some(
            YamlView::Mapping(
                typed_mapping(
                    lists.map_values(
                        |l: (Seq<char>, Seq<Seq<char>>)|
                            (
                                YamlView::Text(l.0),
                                YamlView::Sequence(l.1.map_values(|c: Seq<char>| YamlView::Text(c))),
                            ),
                    ),
                ),
            ),
        )
    }
}

/// The views of typed (key, value) rows.
pub open spec fn pair_texts(p: Seq<(String, String)>) -> Seq<(Seq<char>, Seq<char>)> {
    p.map_values(|x: (String, String)| (x.0@, x.1@))
}

/// The views of typed (key, cells) rows.
pub open spec fn list_texts(l: Seq<(String, Vec<String>)>) -> Seq<(Seq<char>, Seq<Seq<char>>)> {
    l.map_values(|x: (String, Vec<String>)| (x.0@, texts(x.1@)))
}

fn text_values(cells: &Vec<String>, numeric: bool) -> (r: Vec<YamlValue>)
    ensures
        seq_view(r@) == (if numeric {
            texts(cells@).map_values(|c: Seq<char>| spec_parse_scalar(c, true))
        } else {
            texts(cells@).map_values(|c: Seq<char>| YamlView::Text(c))
        }),
{
    let mut r: Vec<YamlValue> = Vec::new();
    let mut i: usize = 0;
    while i < cells.len()
        invariant
            i <= cells@.len(),
            r@.len() == i,
            forall|k: int|
                0 <= k < i ==> (#[trigger] r@[k])@ == (if numeric {
                    spec_parse_scalar(cells@[k]@, true)
                } else {
                    YamlView::Text(cells@[k]@)
                }),
        decreases cells@.len() - i,
    {
        if numeric {
            r.push(parse_scalar(cells[i].as_str(), true));
        } else {
            r.push(YamlValue::String(cells[i].clone()));
        }
        i = i + 1;
    }
    proof {
        if numeric {
            lemma_seq_view_ext(r@, texts(cells@).map_values(|c: Seq<char>| spec_parse_scalar(c, true)));
        } else {
            lemma_seq_view_ext(r@, texts(cells@).map_values(|c: Seq<char>| YamlView::Text(c)));
        }
    }
    r
}

/// The value a setting's widgets describe; `None` for a switch.
pub fn value_from_widgets(shape: Shape, reads: &WidgetReads) -> (r: Option<YamlValue>)
    ensures
        match r {
            Some(v) => spec_value_from_widgets(
                shape,
                reads.text@,
                match reads.selected {
                    Some(s) => Some(s@),
                    None => None,
                },
                texts(reads.cells@),
                pair_texts(reads.pairs@),
                list_texts(reads.lists@),
            ) == Some(v@),
            None => spec_value_from_widgets(
                shape,
                reads.text@,
                match reads.selected {
                    Some(s) => Some(s@),
                    None => None,
                },
                texts(reads.cells@),
                pair_texts(reads.pairs@),
                list_texts(reads.lists@),
            ) is None,
        },
{
    if shape == Shape::Boolean {
        None
    } else if shape == Shape::Integer {
        Some(parse_scalar(reads.text.as_str(), true))
    } else if shape == Shape::Enum || shape == Shape::NullableEnum {
        match &reads.selected {
            Some(v) => {
                if v.unicode_len() == 0 {
                    Some(YamlValue::Null)
                } else {
                    Some(YamlValue::String(v.clone()))
                }
            },
            None => Some(YamlValue::Null),
        }
    } else if shape == Shape::String || shape == Shape::Delimiter || shape == Shape::FilePath
        || shape == Shape::Url || shape == Shape::TemplateString {
        Some(YamlValue::String(reads.text.clone()))
    } else if shape == Shape::ListOfStrings || shape == Shape::CommandList || shape
        == Shape::ConfigRef {
        Some(YamlValue::Sequence(text_values(&reads.cells, false)))
    } else if shape == Shape::ListOfNumbers {
        Some(YamlValue::Sequence(text_values(&reads.cells, true)))
    } else if shape == Shape::ListOfOneKeyMaps {
        let mut items: Vec<YamlValue> = Vec::new();
        let mut i: usize = 0;
        while i < reads.pairs.len()
            invariant
                i <= reads.pairs@.len(),
                items@.len() == i,
                forall|k: int|
                    0 <= k < i ==> (#[trigger] items@[k])@ == YamlView::Mapping(
                        seq![(YamlView::Text(reads.pairs@[k].0@), YamlView::Text(reads.pairs@[k].1@))],
                    ),
            decreases reads.pairs@.len() - i,
        {
            let mut e: Vec<(YamlValue, YamlValue)> = Vec::new();
            e.push((YamlValue::String(reads.pairs[i].0.clone()), YamlValue::String(reads.pairs[i].1.clone())));
            proof {
                lemma_pairs_view(e@);
                lemma_pairs_view_ext(
                    e@,
                    seq![(YamlView::Text(reads.pairs@[i as int].0@), YamlView::Text(reads.pairs@[i as int].1@))],
                );
            }
            items.push(YamlValue::Mapping(e));
            i = i + 1;
        }
        proof {
            lemma_seq_view_ext(
                items@,
                pair_texts(reads.pairs@).map_values(
                    |p: (Seq<char>, Seq<char>)|
                        YamlView::Mapping(seq![(YamlView::Text(p.0), YamlView::Text(p.1))]),
                ),
            );
        }
        Some(YamlValue::Sequence(items))
    } else if shape == Shape::Mapping {
        let mut rows: Vec<(YamlValue, YamlValue)> = Vec::new();
        let mut i: usize = 0;
        while i < reads.pairs.len()
            invariant
                i <= reads.pairs@.len(),
                rows@.len() == i,
                forall|k: int|
                    0 <= k < i ==> (#[trigger] rows@[k]).0@ == YamlView::Text(reads.pairs@[k].0@)
                        && rows@[k].1@ == YamlView::Text(reads.pairs@[k].1@),
            decreases reads.pairs@.len() - i,
        {
            rows.push((YamlValue::String(reads.pairs[i].0.clone()), YamlValue::String(reads.pairs[i].1.clone())));
            i = i + 1;
        }
        proof {
            lemma_pairs_view_ext(
                rows@,
                pair_texts(reads.pairs@).map_values(
                    |p: (Seq<char>, Seq<char>)| (YamlView::Text(p.0), YamlView::Text(p.1)),
                ),
            );
        }
        let mut m: Vec<(YamlValue, YamlValue)> = Vec::new();
        proof {
            lemma_pairs_view(m@);
            assert(pairs_view(m@) =~= Seq::<(YamlView, YamlView)>::empty());
        }
        insert_all_exec(&mut m, &rows);
        Some(YamlValue::Mapping(m))
    } else {
        let mut rows: Vec<(YamlValue, YamlValue)> = Vec::new();
        let mut i: usize = 0;
        while i < reads.lists.len()
            invariant
                i <= reads.lists@.len(),
                rows@.len() == i,
                forall|k: int|
                    0 <= k < i ==> (#[trigger] rows@[k]).0@ == YamlView::Text(reads.lists@[k].0@)
                        && rows@[k].1@ == YamlView::Sequence(
                        texts(reads.lists@[k].1@).map_values(|c: Seq<char>| YamlView::Text(c)),
                    ),
            decreases reads.lists@.len() - i,
        {
            let items = text_values(&reads.lists[i].1, false);
            rows.push((YamlValue::String(reads.lists[i].0.clone()), YamlValue::Sequence(items)));
            i = i + 1;
        }
        proof {
            lemma_pairs_view_ext(
                rows@,
                list_texts(reads.lists@).map_values(
                    |l: (Seq<char>, Seq<Seq<char>>)|
                        (
                            YamlView::Text(l.0),
                            YamlView::Sequence(l.1.map_values(|c: Seq<char>| YamlView::Text(c))),
                        ),
                ),
            );
        }
        let mut m: Vec<(YamlValue, YamlValue)> = Vec::new();
        proof {
            lemma_pairs_view(m@);
            assert(pairs_view(m@) =~= Seq::<(YamlView, YamlView)>::empty());
        }
        insert_all_exec(&mut m, &rows);
        Some(YamlValue::Mapping(m))
    }
}

/// The value to store for `key` when its widgets change: the value they describe, or `None`
/// when the setting is not in the config (or is a switch).
pub fn read_widgets(values: &DraftValues, key: &str, shape: Shape, reads: &WidgetReads) -> (r:
    Option<YamlValue>)
    ensures
        entry_get(values.view_entries(), key@) is None ==> r is None,
        entry_get(values.view_entries(), key@) is Some ==> match r {
            Some(v) => spec_value_from_widgets(
                shape,
                reads.text@,
                match reads.selected {
                    Some(s) => Some(s@),
                    None => None,
                },
                texts(reads.cells@),
                pair_texts(reads.pairs@),
                list_texts(reads.lists@),
            ) == Some(v@),
            None => spec_value_from_widgets(
                shape,
                reads.text@,
                match reads.selected {
                    Some(s) => Some(s@),
                    None => None,
                },
                texts(reads.cells@),
                pair_texts(reads.pairs@),
                list_texts(reads.lists@),
            ) is None,
        },
{
    if values.get(key).is_none() {
        return None;
    }
    value_from_widgets(shape, reads)
}

} // verus!

//! The YAML value model that configs are edited in.
//!
//! A config is a mapping from setting keys to YAML values. The model below mirrors YAML's
//! data model as the configs use it: null, booleans, numbers, strings, sequences, mappings
//! (which keep their insertion order and hold each key once) and tagged values. A float is
//! held by the text YAML prints for it, since nothing here computes with it.
use vstd::prelude::*;
use crate::text::{chars_of, i64_to_text, signed_decimal, u64_to_text};

verus! {

/// A YAML number. Integers keep their value; a float keeps the text YAML prints for it.
pub enum YamlNumber {
    PosInt(u64),
    NegInt(i64),
    Float(String),
}

/// A YAML value.
pub enum YamlValue {
    Null,
    Bool(bool),
    Number(YamlNumber),
    String(String),
    Sequence(Vec<YamlValue>),
    Mapping(Vec<(YamlValue, YamlValue)>),
    Tagged(String, Box<YamlValue>),
}

/// What a [`YamlNumber`] stands for.
pub enum NumberView {
    /// An integer, whichever of the two integer forms holds it.
    Int(int),
    Float(Seq<char>),
}

/// What a [`YamlValue`] stands for.
pub enum YamlView {
    Null,
    Bool(bool),
    Number(NumberView),
    Text(Seq<char>),
    Sequence(Seq<YamlView>),
    Mapping(Seq<(YamlView, YamlView)>),
    Tagged(Seq<char>, Box<YamlView>),
}

impl View for YamlNumber {
    type V = NumberView;

    open spec fn view(&self) -> NumberView {
        match self {
            YamlNumber::PosInt(n) => NumberView::Int(*n as int),
            YamlNumber::NegInt(n) => NumberView::Int(*n as int),
            YamlNumber::Float(t) => NumberView::Float(t@),
        }
    }
}

/// The view of each element of a sequence of values.
pub open spec fn seq_view(s: Seq<YamlValue>) -> Seq<YamlView>
    decreases s,
{
    if s.len() == 0 {
        Seq::empty()
    } else {
        seq_view(s.drop_last()).push(value_view(s.last()))
    }
}

/// The view of each entry of a sequence of key/value pairs.
pub open spec fn pairs_view(s: Seq<(YamlValue, YamlValue)>) -> Seq<(YamlView, YamlView)>
    decreases s,
{
    if s.len() == 0 {
        Seq::empty()
    } else {
        pairs_view(s.drop_last()).push((value_view(s.last().0), value_view(s.last().1)))
    }
}

/// What a value stands for.
pub open spec fn value_view(v: YamlValue) -> YamlView
    decreases v,
{
    match v {
        YamlValue::Null => YamlView::Null,
        YamlValue::Bool(b) => YamlView::Bool(b),
        YamlValue::Number(n) => YamlView::Number(n@),
        YamlValue::String(s) => YamlView::Text(s@),
        YamlValue::Sequence(items) => YamlView::Sequence(seq_view(items@)),
        YamlValue::Mapping(entries) => YamlView::Mapping(pairs_view(entries@)),
        YamlValue::Tagged(tag, inner) => YamlView::Tagged(tag@, Box::new(value_view(*inner))),
    }
}

impl View for YamlValue {
    type V = YamlView;

    open spec fn view(&self) -> YamlView {
        value_view(*self)
    }
}

pub proof fn lemma_seq_view(s: Seq<YamlValue>)
    ensures
        seq_view(s).len() == s.len(),
        forall|i: int| 0 <= i < s.len() ==> #[trigger] seq_view(s)[i] == value_view(s[i]),
    decreases s.len(),
{
    if s.len() > 0 {
        lemma_seq_view(s.drop_last());
    }
}

pub proof fn lemma_pairs_view(s: Seq<(YamlValue, YamlValue)>)
    ensures
        pairs_view(s).len() == s.len(),
        forall|i: int|
            0 <= i < s.len() ==> #[trigger] pairs_view(s)[i] == (
                value_view(s[i].0),
                value_view(s[i].1),
            ),
    decreases s.len(),
{
    if s.len() > 0 {
        lemma_pairs_view(s.drop_last());
    }
}

/// Two sequences whose elements have equal views have equal views.
pub proof fn lemma_seq_view_ext(a: Seq<YamlValue>, b: Seq<YamlView>)
    requires
        a.len() == b.len(),
        forall|i: int| 0 <= i < a.len() ==> value_view(#[trigger] a[i]) == b[i],
    ensures
        seq_view(a) == b,
{
    lemma_seq_view(a);
    assert(seq_view(a) =~= b);
}

/// Two pair sequences whose entries have equal views have equal views.
pub proof fn lemma_pairs_view_ext(a: Seq<(YamlValue, YamlValue)>, b: Seq<(YamlView, YamlView)>)
    requires
        a.len() == b.len(),
        forall|i: int|
            0 <= i < a.len() ==> (value_view(#[trigger] a[i].0), value_view(a[i].1)) == b[i],
    ensures
        pairs_view(a) == b,
{
    lemma_pairs_view(a);
    assert(pairs_view(a) =~= b);
}

impl YamlNumber {
    /// A copy of the number.
    pub fn copy(&self) -> (r: YamlNumber)
        ensures
            r@ == self@,
            r == *self || self is Float,
    {
        match self {
            YamlNumber::PosInt(n) => YamlNumber::PosInt(*n),
            YamlNumber::NegInt(n) => YamlNumber::NegInt(*n),
            YamlNumber::Float(t) => YamlNumber::Float(t.clone()),
        }
    }

    /// The text YAML prints for the number (`Number`'s `Display`).
    pub fn to_text(&self) -> (r: String)
        ensures
            r@ == number_text(self@),
    {
        match self {
            YamlNumber::PosInt(n) => u64_to_text(*n),
            YamlNumber::NegInt(n) => i64_to_text(*n),
            YamlNumber::Float(t) => t.clone(),
        }
    }
}

/// A copy of each value of `items`.
pub fn copy_values(items: &Vec<YamlValue>) -> (out: Vec<YamlValue>)
    ensures
        seq_view(out@) == seq_view(items@),
        out@.len() == items@.len(),
    decreases items@, 1int,
{
    let mut out: Vec<YamlValue> = Vec::new();
    let mut i: usize = 0;
    while i < items.len()
        invariant
            i <= items@.len(),
            out@.len() == i,
            forall|k: int| 0 <= k < i ==> (#[trigger] out@[k])@ == items@[k]@,
        decreases items@.len() - i,
    {
        proof {
            assert(decreases_to!(items@ => items@[i as int]));
        }
        let c = items[i].copy();
        out.push(c);
        i = i + 1;
    }
    proof {
        lemma_seq_view(items@);
        lemma_seq_view_ext(out@, seq_view(items@));
    }
    out
}

/// A copy of each entry of `entries`.
pub fn copy_pairs(entries: &Vec<(YamlValue, YamlValue)>) -> (out: Vec<(YamlValue, YamlValue)>)
    ensures
        pairs_view(out@) == pairs_view(entries@),
        out@.len() == entries@.len(),
    decreases entries@, 1int,
{
    let mut out: Vec<(YamlValue, YamlValue)> = Vec::new();
    let mut i: usize = 0;
    while i < entries.len()
        invariant
            i <= entries@.len(),
            out@.len() == i,
            forall|k: int|
                0 <= k < i ==> (#[trigger] out@[k]).0@ == entries@[k].0@ && out@[k].1@
                    == entries@[k].1@,
        decreases entries@.len() - i,
    {
        proof {
            assert(decreases_to!(entries@ => entries@[i as int]));
            assert(decreases_to!(entries@[i as int] => entries@[i as int].0));
            assert(decreases_to!(entries@[i as int] => entries@[i as int].1));
        }
        let k = entries[i].0.copy();
        let v = entries[i].1.copy();
        out.push((k, v));
        i = i + 1;
    }
    proof {
        lemma_pairs_view(entries@);
        lemma_pairs_view_ext(out@, pairs_view(entries@));
    }
    out
}

/// The text YAML prints for a number.
pub open spec fn number_text(n: NumberView) -> Seq<char> {
    match n {
        NumberView::Int(i) => signed_decimal(i),
        NumberView::Float(t) => t,
    }
}

impl YamlValue {
    /// A copy of the value.
    pub fn copy(&self) -> (r: YamlValue)
        ensures
            r@ == self@,
        decreases *self, 0int,
    {
        match self {
            YamlValue::Null => YamlValue::Null,
            YamlValue::Bool(b) => YamlValue::Bool(*b),
            YamlValue::Number(n) => YamlValue::Number(n.copy()),
            YamlValue::String(s) => YamlValue::String(s.clone()),
            YamlValue::Sequence(items) => {
                proof {
                    assert(decreases_to!(*items => items@));
                }
                YamlValue::Sequence(copy_values(items))
            },
            YamlValue::Mapping(entries) => {
                proof {
                    assert(decreases_to!(*entries => entries@));
                }
                YamlValue::Mapping(copy_pairs(entries))
            },
            YamlValue::Tagged(tag, inner) => {
                let c = (**inner).copy();
                YamlValue::Tagged(tag.clone(), Box::new(c))
            },
        }
    }

    /// Whether the value itself is null (a tagged null is not).
    pub fn is_null(&self) -> (r: bool)
        ensures
            r == (self@ is Null),
    {
        match self {
            YamlValue::Null => true,
            _ => false,
        }
    }

    /// Whether the value itself is a sequence (a tagged sequence is not).
    pub fn is_sequence(&self) -> (r: bool)
        ensures
            r == (self@ is Sequence),
    {
        match self {
            YamlValue::Sequence(_) => true,
            _ => false,
        }
    }
}

/// Whether two texts are equal, computed.
pub fn text_equal(a: &String, b: &String) -> (r: bool)
    ensures
        r == (a@ == b@),
{
    let x = chars_of(a.as_str());
    let y = chars_of(b.as_str());
    if x.len() != y.len() {
        return false;
    }
    let mut i: usize = 0;
    while i < x.len()
        invariant
            x@.len() == y@.len(),
            x@ == a@,
            y@ == b@,
            i <= x@.len(),
            x@.subrange(0, i as int) == y@.subrange(0, i as int),
        decreases x@.len() - i,
    {
        if x[i] != y[i] {
            return false;
        }
        assert(x@.subrange(0, i + 1) =~= x@.subrange(0, i as int).push(x@[i as int]));
        assert(y@.subrange(0, i + 1) =~= y@.subrange(0, i as int).push(y@[i as int]));
        i = i + 1;
    }
    assert(x@ =~= x@.subrange(0, i as int));
    assert(y@ =~= y@.subrange(0, i as int));
    true
}

/// Whether two numbers stand for the same number.
pub fn numbers_equal(a: &YamlNumber, b: &YamlNumber) -> (r: bool)
    ensures
        r == (a@ == b@),
{
    match (a, b) {
        (YamlNumber::PosInt(x), YamlNumber::PosInt(y)) => *x == *y,
        (YamlNumber::NegInt(x), YamlNumber::NegInt(y)) => *x == *y,
        (YamlNumber::PosInt(x), YamlNumber::NegInt(y)) => (*y >= 0) && (*x == *y as u64),
        (YamlNumber::NegInt(x), YamlNumber::PosInt(y)) => (*x >= 0) && (*x as u64 == *y),
        (YamlNumber::Float(x), YamlNumber::Float(y)) => text_equal(x, y),
        _ => false,
    }
}

/// Whether two sequences of values stand for the same sequence.
fn seqs_equal(xs: &Vec<YamlValue>, ys: &Vec<YamlValue>) -> (r: bool)
    ensures
        r == (seq_view(xs@) == seq_view(ys@)),
    decreases xs@, 1int,
{
    proof {
        lemma_seq_view(xs@);
        lemma_seq_view(ys@);
    }
    if xs.len() != ys.len() {
        return false;
    }
    let mut i: usize = 0;
    while i < xs.len()
        invariant
            xs@.len() == ys@.len(),
            i <= xs@.len(),
            seq_view(xs@).len() == xs@.len(),
            seq_view(ys@).len() == ys@.len(),
            forall|k: int| 0 <= k < xs@.len() ==> #[trigger] seq_view(xs@)[k] == xs@[k]@,
            forall|k: int| 0 <= k < ys@.len() ==> #[trigger] seq_view(ys@)[k] == ys@[k]@,
            forall|k: int| 0 <= k < i ==> #[trigger] xs@[k]@ == ys@[k]@,
        decreases xs@.len() - i,
    {
        proof {
            assert(decreases_to!(xs@ => xs@[i as int]));
        }
        if !values_equal(&xs[i], &ys[i]) {
            assert(seq_view(xs@)[i as int] != seq_view(ys@)[i as int]);
            return false;
        }
        i = i + 1;
    }
    assert(seq_view(xs@) =~= seq_view(ys@));
    true
}

/// Whether two sequences of entries stand for the same entries.
fn pairs_equal(xs: &Vec<(YamlValue, YamlValue)>, ys: &Vec<(YamlValue, YamlValue)>) -> (r: bool)
    ensures
        r == (pairs_view(xs@) == pairs_view(ys@)),
    decreases xs@, 1int,
{
    proof {
        lemma_pairs_view(xs@);
        lemma_pairs_view(ys@);
    }
    if xs.len() != ys.len() {
        return false;
    }
    let mut i: usize = 0;
    while i < xs.len()
        invariant
            xs@.len() == ys@.len(),
            i <= xs@.len(),
            pairs_view(xs@).len() == xs@.len(),
            pairs_view(ys@).len() == ys@.len(),
            forall|k: int|
                0 <= k < xs@.len() ==> #[trigger] pairs_view(xs@)[k] == (xs@[k].0@, xs@[k].1@),
            forall|k: int|
                0 <= k < ys@.len() ==> #[trigger] pairs_view(ys@)[k] == (ys@[k].0@, ys@[k].1@),
            forall|k: int| 0 <= k < i ==> #[trigger] pairs_view(xs@)[k] == pairs_view(ys@)[k],
        decreases xs@.len() - i,
    {
        proof {
            assert(decreases_to!(xs@ => xs@[i as int]));
            assert(decreases_to!(xs@[i as int] => xs@[i as int].0));
            assert(decreases_to!(xs@[i as int] => xs@[i as int].1));
        }
        let same_key = values_equal(&xs[i].0, &ys[i].0);
        if !same_key {
            assert(pairs_view(xs@)[i as int] != pairs_view(ys@)[i as int]);
            return false;
        }
        let same_value = values_equal(&xs[i].1, &ys[i].1);
        if !same_value {
            assert(pairs_view(xs@)[i as int] != pairs_view(ys@)[i as int]);
            return false;
        }
        i = i + 1;
    }
    assert(pairs_view(xs@) =~= pairs_view(ys@));
    true
}

/// Whether two values stand for the same YAML value.
pub fn values_equal(a: &YamlValue, b: &YamlValue) -> (r: bool)
    ensures
        r == (a@ == b@),
    decreases *a, 0int,
{
    match a {
        YamlValue::Null => b.is_null(),
        YamlValue::Bool(x) => match b {
            YamlValue::Bool(y) => *x == *y,
            _ => false,
        },
        YamlValue::Number(x) => match b {
            YamlValue::Number(y) => numbers_equal(x, y),
            _ => false,
        },
        YamlValue::String(x) => match b {
            YamlValue::String(y) => text_equal(x, y),
            _ => false,
        },
        YamlValue::Sequence(xs) => match b {
            YamlValue::Sequence(ys) => {
                proof {
                    assert(decreases_to!(*xs => xs@));
                }
                seqs_equal(xs, ys)
            },
            _ => false,
        },
        YamlValue::Mapping(xs) => match b {
            YamlValue::Mapping(ys) => {
                proof {
                    assert(decreases_to!(*xs => xs@));
                }
                pairs_equal(xs, ys)
            },
            _ => false,
        },
        YamlValue::Tagged(t1, v1) => match b {
            YamlValue::Tagged(t2, v2) => {
                let same_tag = text_equal(t1, t2);
                if !same_tag {
                    return false;
                }
                values_equal(&**v1, &**v2)
            },
            _ => false,
        },
    }
}

// ---------------------------------------------------------------------------------------------
// Mappings: insertion-ordered, each key once.
// ---------------------------------------------------------------------------------------------

/// The index of the entry whose key is `k`, if any (the first such entry).
pub open spec fn key_index(m: Seq<(YamlView, YamlView)>, k: YamlView) -> Option<int>
    decreases m.len(),
{
    if m.len() == 0 {
        None
    } else {
        match key_index(m.drop_last(), k) {
            Some(i) => Some(i),
            None => if m.last().0 == k {
                Some(m.len() - 1)
            } else {
                None
            },
        }
    }
}

pub proof fn lemma_key_index(m: Seq<(YamlView, YamlView)>, k: YamlView)
    ensures
        match key_index(m, k) {
            Some(i) => 0 <= i < m.len() && m[i].0 == k && forall|j: int|
                0 <= j < i ==> (#[trigger] m[j]).0 != k,
            None => forall|j: int| 0 <= j < m.len() ==> (#[trigger] m[j]).0 != k,
        },
    decreases m.len(),
{
    if m.len() > 0 {
        lemma_key_index(m.drop_last(), k);
        assert forall|j: int| 0 <= j < m.len() - 1 implies m.drop_last()[j] == m[j] by {}
    }
}

/// The mapping after inserting `v` under `k`: an existing key keeps its place and takes the
/// new value; a new key goes at the end.
pub open spec fn mapping_insert(m: Seq<(YamlView, YamlView)>, k: YamlView, v: YamlView) -> Seq<
    (YamlView, YamlView),
> {
    match key_index(m, k) {
        Some(i) => m.update(i, (m[i].0, v)),
        None => m.push((k, v)),
    }
}

/// The mapping after removing entry `i` by moving the last entry into its place.
pub open spec fn mapping_swap_remove(m: Seq<(YamlView, YamlView)>, i: int) -> Seq<
    (YamlView, YamlView),
> {
    if i == m.len() - 1 {
        m.drop_last()
    } else {
        m.update(i, m.last()).drop_last()
    }
}

/// Inserts `v` under `k`, as a YAML mapping does.
pub fn mapping_insert_exec(m: &mut Vec<(YamlValue, YamlValue)>, k: YamlValue, v: YamlValue)
    ensures
        pairs_view(final(m)@) == mapping_insert(pairs_view(old(m)@), k@, v@),
{
    proof {
        lemma_pairs_view(m@);
        lemma_key_index(pairs_view(m@), k@);
    }
    let ghost pv = pairs_view(m@);
    let n = m.len();
    let mut i: usize = 0;
    while i < n
        invariant
            n == m@.len(),
            pv == pairs_view(m@),
            pv == pairs_view(old(m)@),
            pv.len() == m@.len(),
            forall|j: int| 0 <= j < m@.len() ==> #[trigger] pv[j] == (m@[j].0@, m@[j].1@),
            i <= n,
            forall|j: int| 0 <= j < i ==> (#[trigger] pv[j]).0 != k@,
        decreases n - i,
    {
        if values_equal(&m[i].0, &k) {
            proof {
                lemma_key_index(pv, k@);
                match key_index(pv, k@) {
                    Some(x) => {
                        if x < i {
                            assert(pv[x].0 != k@);
                        }
                        if x > i {
                            assert(pv[i as int].0 == k@);
                        }
                    },
                    None => {
                        assert(pv[i as int].0 == k@);
                    },
                }
                assert(key_index(pv, k@) == Some(i as int));
            }
            let old_key = m[i].0.copy();
            let ghost before = m@;
            m.set(i, (old_key, v));
            proof {
                lemma_pairs_view(m@);
                assert(pairs_view(m@) =~= pv.update(i as int, (pv[i as int].0, v@)));
            }
            return;
        }
        i = i + 1;
    }
    proof {
        lemma_key_index(pv, k@);
    }
    m.push((k, v));
    proof {
        lemma_pairs_view(m@);
        assert(pairs_view(m@) =~= pv.push((k@, v@)));
    }
}

/// Removes the entry at `i` by moving the last entry into its place (`Mapping::remove`).
pub fn mapping_swap_remove_exec(m: &mut Vec<(YamlValue, YamlValue)>, i: usize)
    requires
        i < old(m)@.len(),
    ensures
        pairs_view(final(m)@) == mapping_swap_remove(pairs_view(old(m)@), i as int),
{
    proof {
        lemma_pairs_view(m@);
    }
    let ghost pv = pairs_view(m@);
    let _removed = m.swap_remove(i);
    proof {
        lemma_pairs_view(m@);
        if i as int == pv.len() - 1 {
            assert(pairs_view(m@) =~= pv.drop_last());
        } else {
            assert(pairs_view(m@) =~= pv.update(i as int, pv.last()).drop_last());
        }
    }
}

/// The value under all of its tags.
pub open spec fn untag(v: YamlView) -> YamlView
    decreases v,
{
    match v {
        YamlView::Tagged(_, inner) => untag(*inner),
        _ => v,
    }
}

impl YamlValue {
    /// The value under all of its tags (`Value::untag_ref`).
    pub fn untagged(&self) -> (r: &YamlValue)
        ensures
            r@ == untag(self@),
        decreases *self,
    {
        match self {
            YamlValue::Tagged(_, inner) => (&**inner).untagged(),
            _ => self,
        }
    }
}

/// The index of the first entry whose key is `k`, computed.
pub fn mapping_key_index(m: &Vec<(YamlValue, YamlValue)>, k: &YamlValue) -> (r: Option<usize>)
    ensures
        match r {
            Some(i) => key_index(pairs_view(m@), k@) == Some(i as int),
            None => key_index(pairs_view(m@), k@) is None,
        },
{
    proof {
        lemma_pairs_view(m@);
        lemma_key_index(pairs_view(m@), k@);
    }
    let ghost pv = pairs_view(m@);
    let mut i: usize = 0;
    while i < m.len()
        invariant
            pv == pairs_view(m@),
            pv.len() == m@.len(),
            forall|j: int| 0 <= j < m@.len() ==> #[trigger] pv[j] == (m@[j].0@, m@[j].1@),
            i <= m@.len(),
            forall|j: int| 0 <= j < i ==> (#[trigger] pv[j]).0 != k@,
        decreases m@.len() - i,
    {
        if values_equal(&m[i].0, k) {
            proof {
                lemma_key_index(pv, k@);
                match key_index(pv, k@) {
                    Some(x) => {
                        if x < i {
                            assert(pv[x].0 != k@);
                        }
                        if x > i {
                            assert(pv[i as int].0 == k@);
                        }
                    },
                    None => {
                        assert(pv[i as int].0 == k@);
                    },
                }
            }
            return Some(i);
        }
        i = i + 1;
    }
    None
}

} // verus!

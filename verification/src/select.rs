//! The rows of the application's dropdowns: a value line over a muted description line, with
//! the value set in the monospace family when it is a literal that lands in YAML.
use vstd::prelude::*;
use crate::text::{
    chars_of, chars_from, owned, contains, is_prefix, lowercase_contains, spec_lowercase,
    starts_with_chars, string_from_chars, to_lowercase,
};

verus! {

/// One dropdown row.
pub struct DetailSelectItem {
    pub label: String,
    pub subtitle: String,
    pub value: String,
    pub divider_above: bool,
    /// The label is a literal (a YAML value, a file name) rather than prose.
    pub mono: bool,
}

/// What a [`DetailSelectItem`] holds.
pub struct DetailSelectItemView {
    pub label: Seq<char>,
    pub subtitle: Seq<char>,
    pub value: Seq<char>,
    pub divider_above: bool,
    pub mono: bool,
}

impl View for DetailSelectItem {
    type V = DetailSelectItemView;

    open spec fn view(&self) -> DetailSelectItemView {
        DetailSelectItemView {
            label: self.label@,
            subtitle: self.subtitle@,
            value: self.value@,
            divider_above: self.divider_above,
            mono: self.mono,
        }
    }
}

/// The separator between a choice's value and its prose in a catalogue label.
pub open spec fn choice_separator() -> Seq<char> {
    seq![' ', '-', ' ']
}

/// The prose of a catalogue label `"{value} - {prose}"`, or nothing when the label is not in
/// that form.
pub open spec fn choice_prose(value: Seq<char>, label: Seq<char>) -> Seq<char> {
    let head = value + choice_separator();
    if is_prefix(head, label) {
        label.subrange(head.len() as int, label.len() as int)
    } else {
        Seq::empty()
    }
}

/// Whether a row answers a search: its label or its subtitle, lowercased, contains the
/// lowercased query.
pub open spec fn item_matches(item: DetailSelectItemView, query: Seq<char>) -> bool {
    contains(spec_lowercase(item.label), spec_lowercase(query)) || contains(
        spec_lowercase(item.subtitle),
        spec_lowercase(query),
    )
}

impl DetailSelectItem {
    /// A row whose label is prose: a server name, a config's title.
    pub fn new(value: String, label: String) -> (r: DetailSelectItem)
        ensures
            r@ == (DetailSelectItemView {
                label: label@,
                subtitle: Seq::empty(),
                value: value@,
                divider_above: false,
                mono: false,
            }),
    {
        DetailSelectItem { label, subtitle: String::new(), value, divider_above: false, mono: false }
    }

    /// A row whose label is a literal value.
    pub fn code(value: String, label: String) -> (r: DetailSelectItem)
        ensures
            r@ == (DetailSelectItemView {
                label: label@,
                subtitle: Seq::empty(),
                value: value@,
                divider_above: false,
                mono: true,
            }),
    {
        let item = Self::new(value, label);
        DetailSelectItem { mono: true, ..item }
    }

    /// One enum choice from the setting catalogue. The catalogue writes the label as
    /// `"{value} - {prose}"`; the value goes on the mono line and the prose underneath. A label
    /// not in that form is used as-is, with no subtitle.
    pub fn from_choice(value: String, label: &str) -> (r: DetailSelectItem)
        ensures
            r@ == (DetailSelectItemView {
                label: if is_prefix(value@ + choice_separator(), label@) {
                    value@
                } else {
                    label@
                },
                subtitle: choice_prose(value@, label@),
                value: value@,
                divider_above: false,
                mono: true,
            }),
    {
        let lc = chars_of(label);
        let mut head = chars_of(value.as_str());
        head.push(' ');
        head.push('-');
        head.push(' ');
        assert(head@ =~= value@ + choice_separator());
        if starts_with_chars(&lc, &head) {
            let rest = chars_from(&lc, head.len());
            let prose = string_from_chars(rest.as_slice());
            let shown = value.clone();
            Self::code(value, shown).subtitle(prose)
        } else {
            Self::code(value, owned(label)).subtitle(String::new())
        }
    }

    /// The row with `subtitle` as its description line.
    pub fn subtitle(self, subtitle: String) -> (r: DetailSelectItem)
        ensures
            r@ == (DetailSelectItemView { subtitle: subtitle@, ..self@ }),
    {
        DetailSelectItem { subtitle, ..self }
    }

    /// The row with a rule above it, or without one.
    pub fn divider_above(self, divider: bool) -> (r: DetailSelectItem)
        ensures
            r@ == (DetailSelectItemView { divider_above: divider, ..self@ }),
    {
        DetailSelectItem { divider_above: divider, ..self }
    }

    /// Whether the row answers the search `query`.
    pub fn matches(&self, query: &str) -> (r: bool)
        ensures
            r == item_matches(self@, query@),
    {
        let q = to_lowercase(query);
        let qc = chars_of(q.as_str());
        lowercase_contains(self.label.as_str(), &qc) || lowercase_contains(
            self.subtitle.as_str(),
            &qc,
        )
    }
}

} // verus!

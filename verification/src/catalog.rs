//! The Workbench setting catalogue as the builder reads it: each setting's key, section,
//! description, value shape and upstream default.
use vstd::prelude::*;
use crate::yaml::{YamlNumber, YamlValue, YamlView, NumberView};

verus! {

/// The shape of a setting's value, which decides the control that edits it.
#[derive(Clone, Copy, PartialEq, Eq, Structural, Debug)]
pub enum Shape {
    Boolean,
    Integer,
    FilePath,
    ConfigRef,
    String,
    Delimiter,
    Url,
    TemplateString,
    Enum,
    NullableEnum,
    ListOfStrings,
    ListOfNumbers,
    ListOfOneKeyMaps,
    Mapping,
    MapOfLists,
    CommandList,
}

/// Whether a path setting picks a file or a folder.
#[derive(Clone, Copy, PartialEq, Eq, Structural, Debug)]
pub enum Browse {
    File,
    Dir,
}

impl Browse {
    /// A path setting browses for a file unless the catalogue says otherwise.
    pub fn default_browse() -> (r: Browse)
        ensures
            r == Browse::File,
    {
        Browse::File
    }
}

/// One allowed value of an enum setting, with the catalogue's label for it.
pub struct Choice {
    pub value: String,
    pub label: String,
}

/// One setting of the catalogue.
pub struct SettingDef {
    pub key: String,
    pub group: String,
    pub description: String,
    pub shape: Shape,
    pub default: YamlValue,
    pub required: bool,
    pub locked: bool,
    pub choices: Vec<Choice>,
    pub unit: Option<String>,
    pub tokens: Vec<String>,
    pub browse: Browse,
}

/// What a setting of `shape` holds before anything has been typed into it.
pub open spec fn spec_empty_value(shape: Shape) -> YamlView {
    match shape {
        Shape::Boolean => YamlView::Bool(false),
        Shape::Integer => YamlView::Number(NumberView::Int(0)),
        Shape::Mapping | Shape::MapOfLists => YamlView::Mapping(Seq::empty()),
        Shape::ListOfStrings | Shape::ListOfNumbers | Shape::ListOfOneKeyMaps
        | Shape::CommandList | Shape::ConfigRef => YamlView::Sequence(Seq::empty()),
        Shape::NullableEnum => YamlView::Null,
        _ => YamlView::Text(Seq::empty()),
    }
}

/// What a setting of this shape looks like before anything has been typed into it. Used when a
/// setting has no upstream default, so the row still renders something editable.
pub fn empty_value(shape: Shape) -> (r: YamlValue)
    ensures
        r@ == spec_empty_value(shape),
{
    proof {
        crate::yaml::lemma_seq_view(Seq::<YamlValue>::empty());
        crate::yaml::lemma_pairs_view(Seq::<(YamlValue, YamlValue)>::empty());
        assert(crate::yaml::seq_view(Seq::<YamlValue>::empty()) =~= Seq::empty());
        assert(crate::yaml::pairs_view(Seq::<(YamlValue, YamlValue)>::empty()) =~= Seq::empty());
    }
    match shape {
        Shape::Boolean => YamlValue::Bool(false),
        Shape::Integer => YamlValue::Number(YamlNumber::PosInt(0)),
        Shape::Mapping | Shape::MapOfLists => YamlValue::Mapping(Vec::new()),
        Shape::ListOfStrings | Shape::ListOfNumbers | Shape::ListOfOneKeyMaps
        | Shape::CommandList | Shape::ConfigRef => YamlValue::Sequence(Vec::new()),
        Shape::NullableEnum => YamlValue::Null,
        _ => YamlValue::String(String::new()),
    }
}

} // verus!

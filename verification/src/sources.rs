//! The vocabulary behind the first step's two dropdowns: where the metadata comes from, and
//! which processor turns it into Workbench's CSV.
use vstd::prelude::*;
use crate::select::{DetailSelectItem, DetailSelectItemView};
use crate::text::{owned, sort_texts, texts_sorted, texts_view, chars_of};
use crate::yaml::text_equal;
use crate::settings::opt_text;
use crate::platform::{extension_of, last_segment, simple_path};

verus! {

/// The Google Sheet source.
pub const SOURCE_SHEET: &'static str = "google-sheet";

/// The local CSV file source.
pub const SOURCE_CSV: &'static str = "csv-file";

/// The built-in Rust importer.
pub const PROCESSOR_BUILTIN: &'static str = "builtin";

/// "Leave the rows alone."
pub const PROCESSOR_NONE: &'static str = "none";

/// The two sources, sheet first.
pub fn source_items() -> (r: Vec<DetailSelectItem>)
    ensures
        r@.len() == 2,
        r@[0]@ == (DetailSelectItemView {
            label: "Google Sheet \u{2192} CSV"@,
            subtitle: "Fetch a published sheet"@,
            value: SOURCE_SHEET@,
            divider_above: false,
            mono: false,
        }),
        r@[1]@ == (DetailSelectItemView {
            label: "CSV file"@,
            subtitle: "A CSV already on this machine"@,
            value: SOURCE_CSV@,
            divider_above: true,
            mono: false,
        }),
{
    let mut r: Vec<DetailSelectItem> = Vec::new();
    r.push(
        DetailSelectItem {
            label: owned("Google Sheet \u{2192} CSV"),
            subtitle: owned("Fetch a published sheet"),
            value: owned(SOURCE_SHEET),
            divider_above: false,
            mono: false,
        },
    );
    r.push(
        DetailSelectItem {
            label: owned("CSV file"),
            subtitle: owned("A CSV already on this machine"),
            value: owned(SOURCE_CSV),
            divider_above: true,
            mono: false,
        },
    );
    r
}

/// The final component of a path (`Path::file_name`, std), as text. Every platform splits at
/// `/`, and `file_name` is the final component, so for a simple path it is the text after the
/// last `/`. For other paths (backslashes, drive letters, a trailing `..`) the result depends
/// on the platform and is not stated.
#[verifier::external_body]
fn path_file_name(path: &str) -> (r: Option<String>)
    ensures
        simple_path(path@) ==> opt_text(r) == Some(last_segment(path@)),
{
    std::path::Path::new(path).file_name().map(|n| n.to_string_lossy().into_owned())
}

/// What a chosen script is called, once its file name is known: that name, or the whole path
/// when it has none.
pub fn script_label(path: &str, file_name: Option<String>) -> (r: String)
    ensures
        r@ == match opt_text(file_name) {
            Some(n) => n,
            None => path@,
        },
{
    match file_name {
        Some(n) => n,
        None => owned(path),
    }
}

/// Whether a file extension marks a Python script: `py` in any ASCII case.
pub open spec fn spec_is_py_extension(ext: Seq<char>) -> bool {
    ext.len() == 2 && (ext[0] == 'p' || ext[0] == 'P') && (ext[1] == 'y' || ext[1] == 'Y')
}

/// Whether a file extension marks a Python script.
pub fn is_py_extension(ext: &str) -> (r: bool)
    ensures
        r == spec_is_py_extension(ext@),
{
    let c = chars_of(ext);
    c.len() == 2 && (c[0] == 'p' || c[0] == 'P') && (c[1] == 'y' || c[1] == 'Y')
}

/// The first row of the processor dropdown.
pub open spec fn builtin_item() -> DetailSelectItemView {
    DetailSelectItemView {
        label: "Workbench preprocessor"@,
        subtitle: "Built-in Rust importer"@,
        value: PROCESSOR_BUILTIN@,
        divider_above: false,
        mono: false,
    }
}

/// The last row of the processor dropdown.
pub open spec fn none_item() -> DetailSelectItemView {
    DetailSelectItemView {
        label: "None"@,
        subtitle: "Use the source rows unchanged"@,
        value: PROCESSOR_NONE@,
        divider_above: true,
        mono: false,
    }
}

/// A path's extension (`Path::extension`, std), as text. For a simple path it is the extension
/// of the text after the last `/`, as `extension` documents it; for other paths the result
/// depends on the platform and is not stated.
#[verifier::external_body]
fn path_extension(path: &str) -> (r: Option<String>)
    ensures
        simple_path(path@) ==> opt_text(r) == extension_of(last_segment(path@)),
{
    std::path::Path::new(path).extension().map(|e| e.to_string_lossy().into_owned())
}

/// Whether a path names a Python script: its extension is `py` in any ASCII case.
pub open spec fn is_py_script(path: Seq<char>) -> bool {
    extension_of(last_segment(path)) matches Some(e) && spec_is_py_extension(e)
}

/// The Python scripts of a folder listing, in the listing's order.
pub open spec fn py_filter(listing: Seq<Seq<char>>) -> Seq<Seq<char>>
    decreases listing.len(),
{
    if listing.len() == 0 {
        Seq::empty()
    } else if is_py_script(listing.last()) {
        py_filter(listing.drop_last()).push(listing.last())
    } else {
        py_filter(listing.drop_last())
    }
}

/// Whether every path of a listing is simple.
pub open spec fn all_simple(listing: Seq<Seq<char>>) -> bool {
    forall|i: int| 0 <= i < listing.len() ==> simple_path(#[trigger] listing[i])
}

/// The `.py` files of a folder listing, in the listing's order: each path whose extension is
/// `py` in any ASCII case. Stated for listings of simple paths.
pub fn py_scripts(listing: &Vec<String>) -> (r: Vec<String>)
    ensures
        r@.len() <= listing@.len(),
        all_simple(texts_view(listing@)) ==> texts_view(r@) == py_filter(texts_view(listing@)),
{
    let ghost lv = texts_view(listing@);
    let mut r: Vec<String> = Vec::new();
    let mut i: usize = 0;
    while i < listing.len()
        invariant
            i <= listing@.len(),
            lv == texts_view(listing@),
            r@.len() <= i,
            all_simple(lv) ==> texts_view(r@) == py_filter(lv.subrange(0, i as int)),
        decreases listing@.len() - i,
    {
        let ghost before = texts_view(r@);
        proof {
            assert(lv.subrange(0, i + 1).drop_last() =~= lv.subrange(0, i as int));
            assert(lv.subrange(0, i + 1).last() == lv[i as int]);
            assert(lv[i as int] == listing@[i as int]@);
        }
        let keep = match path_extension(listing[i].as_str()) {
            Some(e) => is_py_extension(e.as_str()),
            None => false,
        };
        if keep {
            r.push(listing[i].clone());
            assert(texts_view(r@) =~= before.push(listing@[i as int]@));
        }
        i = i + 1;
    }
    assert(lv.subrange(0, lv.len() as int) =~= lv);
    r
}

/// The processor dropdown for a scripts-folder listing: the built-in importer, the listing's
/// `.py` files in ascending path order, then "None". Stated for listings of simple paths.
pub fn processor_items_for_listing(listing: &Vec<String>) -> (r: Vec<DetailSelectItem>)
    ensures
        all_simple(texts_view(listing@)) ==> processor_list(py_filter(texts_view(listing@)), r@),
{
    let scripts = py_scripts(listing);
    processor_items(scripts)
}

/// Whether `r` is the processor dropdown for the scripts `scripts`: the built-in importer, then
/// every script in ascending path order under one rule, each shown by its file name when its
/// path is simple, then "None".
pub open spec fn processor_list(scripts: Seq<Seq<char>>, r: Seq<DetailSelectItem>) -> bool {
    &&& r.len() == scripts.len() + 2
    &&& r[0]@ == builtin_item()
    &&& r[r.len() - 1]@ == none_item()
    &&& ({
        let values = Seq::new(scripts.len(), |k: int| r[k + 1]@.value);
        &&& texts_sorted(values)
        &&& values.to_multiset() == scripts.to_multiset()
    })
    &&& forall|k: int|
        1 <= k <= scripts.len() ==> {
            &&& (#[trigger] r[k])@.subtitle == "Preprocess script"@
            &&& r[k]@.divider_above == (k == 1)
            &&& !r[k]@.mono
            &&& simple_path(r[k]@.value) ==> r[k]@.label == last_segment(r[k]@.value)
        }
}

/// The processor dropdown: the built-in importer, then every script of `scripts` (the paths of
/// the `.py` files in the scripts folder) in ascending path order under one rule, then "None".
pub fn processor_items(scripts: Vec<String>) -> (r: Vec<DetailSelectItem>)
    ensures
        processor_list(texts_view(scripts@), r@),
{
    let mut items: Vec<DetailSelectItem> = Vec::new();
    items.push(
        DetailSelectItem {
            label: owned("Workbench preprocessor"),
            subtitle: owned("Built-in Rust importer"),
            value: owned(PROCESSOR_BUILTIN),
            divider_above: false,
            mono: false,
        },
    );
    let sorted = sort_texts(scripts);
    let ghost sv = texts_view(sorted@);
    let mut k: usize = 0;
    while k < sorted.len()
        invariant
            k <= sorted@.len(),
            sv == texts_view(sorted@),
            items@.len() == k + 1,
            items@[0]@ == builtin_item(),
            forall|t: int|
                1 <= t <= k ==> {
                    &&& (#[trigger] items@[t])@.value == sv[t - 1]
                    &&& items@[t]@.subtitle == "Preprocess script"@
                    &&& items@[t]@.divider_above == (t == 1)
                    &&& !items@[t]@.mono
                    &&& simple_path(items@[t]@.value) ==> items@[t]@.label == last_segment(
                        items@[t]@.value,
                    )
                },
        decreases sorted@.len() - k,
    {
        let path = &sorted[k];
        items.push(
            DetailSelectItem {
                label: match path_file_name(path.as_str()) {
                    Some(n) => n,
                    None => String::new(),
                },
                subtitle: owned("Preprocess script"),
                value: path.clone(),
                divider_above: k == 0,
                mono: false,
            },
        );
        k = k + 1;
    }
    items.push(
        DetailSelectItem {
            label: owned("None"),
            subtitle: owned("Use the source rows unchanged"),
            value: owned(PROCESSOR_NONE),
            divider_above: true,
            mono: false,
        },
    );
    proof {
        let values = Seq::new(sv.len(), |t: int| items@[t + 1]@.value);
        assert(values =~= sv);
    }
    items
}

/// The processor a dropdown value names.
pub enum ProcessorChoice {
    /// The built-in Rust importer.
    Builtin,
    /// A Python script, by its path.
    Script(String),
    /// The source rows, unchanged.
    Passthrough,
}

/// What a [`ProcessorChoice`] names.
pub enum ProcessorChoiceView {
    Builtin,
    Script(Seq<char>),
    Passthrough,
}

impl View for ProcessorChoice {
    type V = ProcessorChoiceView;

    open spec fn view(&self) -> ProcessorChoiceView {
        match self {
            ProcessorChoice::Builtin => ProcessorChoiceView::Builtin,
            ProcessorChoice::Script(p) => ProcessorChoiceView::Script(p@),
            ProcessorChoice::Passthrough => ProcessorChoiceView::Passthrough,
        }
    }
}

/// The processor a dropdown value names: the two reserved words, else a script path.
pub open spec fn spec_processor_for(value: Seq<char>) -> ProcessorChoiceView {
    if value == PROCESSOR_BUILTIN@ {
        ProcessorChoiceView::Builtin
    } else if value == PROCESSOR_NONE@ {
        ProcessorChoiceView::Passthrough
    } else {
        ProcessorChoiceView::Script(value)
    }
}

/// A dropdown value back into the processor it names. Anything that is not one of the two
/// reserved words is a script path.
pub fn processor_for(value: &str) -> (r: ProcessorChoice)
    ensures
        r@ == spec_processor_for(value@),
{
    let v = owned(value);
    if text_equal(&v, &owned(PROCESSOR_BUILTIN)) {
        ProcessorChoice::Builtin
    } else if text_equal(&v, &owned(PROCESSOR_NONE)) {
        ProcessorChoice::Passthrough
    } else {
        ProcessorChoice::Script(v)
    }
}

impl ProcessorChoice {
    /// What the run log calls the processor: its name, or a script's file name.
    pub fn label(&self) -> (r: String)
        ensures
            self is Builtin ==> r@ == "Workbench preprocessor"@,
            self is Passthrough ==> r@ == "no processor"@,
            self is Script && simple_path(self->0@) ==> r@ == last_segment(self->0@),
    {
        match self {
            ProcessorChoice::Builtin => owned("Workbench preprocessor"),
            ProcessorChoice::Script(path) => script_label(path.as_str(), path_file_name(path.as_str())),
            ProcessorChoice::Passthrough => owned("no processor"),
        }
    }

    /// Only a script runs Python, so only a script needs the Workbench environment.
    pub fn needs_workbench(&self) -> (r: bool)
        ensures
            r == (self is Script),
    {
        match self {
            ProcessorChoice::Script(_) => true,
            _ => false,
        }
    }
}

/// The source a dropdown selection names; a fresh install reads from a sheet.
pub fn source_key(selected: Option<&String>) -> (r: String)
    ensures
        r@ == match selected {
            Some(s) => s@,
            None => SOURCE_SHEET@,
        },
{
    match selected {
        Some(s) => s.clone(),
        None => owned(SOURCE_SHEET),
    }
}

/// Whether a source reads a local CSV (and so uses the CSV field rather than the sheet URL).
pub fn uses_csv_field(source: &str) -> (r: bool)
    ensures
        r == (source@ == SOURCE_CSV@),
{
    text_equal(&owned(source), &owned(SOURCE_CSV))
}

/// The processor a dropdown selection names; the built-in importer when nothing is selected.
pub fn processor_choice(selected: Option<&String>) -> (r: ProcessorChoice)
    ensures
        r@ == match selected {
            Some(s) => spec_processor_for(s@),
            None => ProcessorChoiceView::Builtin,
        },
{
    match selected {
        Some(s) => processor_for(s.as_str()),
        None => ProcessorChoice::Builtin,
    }
}

} // verus!

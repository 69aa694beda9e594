//! The lines the run log shows about preprocessing, and the one-line summary of a saved config.
use vstd::prelude::*;
use crate::text::{decimal, owned, push_str, u64_to_text, usize_to_text};

verus! {

/// The line that opens a preprocessing run.
pub open spec fn spec_preprocess_start_message(
    processor: Seq<char>,
    source_csv: Seq<char>,
    language_url: Seq<char>,
    metadata_csv: Seq<char>,
    config_file: Option<Seq<char>>,
) -> Seq<char> {
    "[INFO] Running "@ + processor + "...\n[INFO] Source CSV: "@ + source_csv
        + "\n[INFO] Language mapping URL: "@ + language_url + "\n[INFO] Config: "@ + match config_file {
        Some(c) => c,
        None => "not supplied"@,
    } + "\n[INFO] Expected output: "@ + metadata_csv
}

/// The log entry written as preprocessing starts: which processor, on what, with which language
/// mapping and config, and where the result will be.
pub fn preprocess_start_message(
    processor: &str,
    source_csv: &str,
    language_url: &str,
    metadata_csv: &str,
    config_file: Option<&str>,
) -> (r: String)
    ensures
        r@ == spec_preprocess_start_message(
            processor@,
            source_csv@,
            language_url@,
            metadata_csv@,
            match config_file {
                Some(c) => Some(c@),
                None => None,
            },
        ),
{
    let mut r = owned("[INFO] Running ");
    push_str(&mut r, processor);
    push_str(&mut r, "...\n[INFO] Source CSV: ");
    push_str(&mut r, source_csv);
    push_str(&mut r, "\n[INFO] Language mapping URL: ");
    push_str(&mut r, language_url);
    push_str(&mut r, "\n[INFO] Config: ");
    match config_file {
        Some(c) => push_str(&mut r, c),
        None => push_str(&mut r, "not supplied"),
    }
    push_str(&mut r, "\n[INFO] Expected output: ");
    push_str(&mut r, metadata_csv);
    r
}

/// How many rows the processor read, changed and failed to validate.
pub struct ProcessingStats {
    pub total_rows: u64,
    pub cells_modified: u64,
    pub validation_failures: u64,
}

/// What the processor wrote to the items CSV.
pub struct ItemsStats {
    pub total_items: u64,
    pub unique_parents: u64,
    pub skipped_rows: u64,
}

/// The processor's report.
pub struct PreprocessDetails {
    pub processing_stats: ProcessingStats,
    pub items_output_path: Option<String>,
    pub items_stats: Option<ItemsStats>,
}

/// A finished preprocessing run: the metadata CSV it wrote and its report.
pub struct PreprocessResult {
    pub metadata_csv: String,
    pub details: PreprocessDetails,
}

/// The lines a successful run logs: the row counts, the new metadata CSV, and the items CSV when
/// the processor wrote one.
pub open spec fn spec_preprocess_success_messages(result: PreprocessResult) -> Seq<Seq<char>> {
    let s = result.details.processing_stats;
    let first = "[INFO] Processor finished: rows="@ + decimal(s.total_rows as nat)
        + ", cells_modified="@ + decimal(s.cells_modified as nat) + ", validation_failures="@
        + decimal(s.validation_failures as nat);
    let second = "[INFO] New metadata CSV: "@ + result.metadata_csv@;
    match (result.details.items_output_path, result.details.items_stats) {
        (Some(path), Some(stats)) => seq![
            first,
            second,
            "[INFO] Items CSV: "@ + path@ + " (items="@ + decimal(stats.total_items as nat)
                + ", unique_parents="@ + decimal(stats.unique_parents as nat) + ", skipped="@
                + decimal(stats.skipped_rows as nat) + ")"@,
        ],
        _ => seq![first, second],
    }
}

/// The log entries for a preprocessing run that succeeded.
pub fn preprocess_success_messages(result: &PreprocessResult) -> (r: Vec<String>)
    ensures
        r@.map_values(|l: String| l@) == spec_preprocess_success_messages(*result),
{
    let s = &result.details.processing_stats;
    let mut first = owned("[INFO] Processor finished: rows=");
    push_str(&mut first, u64_to_text(s.total_rows).as_str());
    push_str(&mut first, ", cells_modified=");
    push_str(&mut first, u64_to_text(s.cells_modified).as_str());
    push_str(&mut first, ", validation_failures=");
    push_str(&mut first, u64_to_text(s.validation_failures).as_str());
    let mut second = owned("[INFO] New metadata CSV: ");
    push_str(&mut second, result.metadata_csv.as_str());
    let mut lines: Vec<String> = Vec::new();
    lines.push(first);
    lines.push(second);
    match &result.details.items_output_path {
        Some(path) => match &result.details.items_stats {
            Some(stats) => {
                let mut third = owned("[INFO] Items CSV: ");
                push_str(&mut third, path.as_str());
                push_str(&mut third, " (items=");
                push_str(&mut third, u64_to_text(stats.total_items).as_str());
                push_str(&mut third, ", unique_parents=");
                push_str(&mut third, u64_to_text(stats.unique_parents).as_str());
                push_str(&mut third, ", skipped=");
                push_str(&mut third, u64_to_text(stats.skipped_rows).as_str());
                push_str(&mut third, ")");
                lines.push(third);
            },
            None => {},
        },
        None => {},
    }
    assert(lines@.map_values(|l: String| l@) =~= spec_preprocess_success_messages(*result));
    lines
}

/// The log entry for a failed run, given the error's text.
pub fn preprocess_error_text(detail: &str) -> (r: String)
    ensures
        r@ == "[ERROR] Processor failed: "@ + detail@,
{
    let mut r = owned("[ERROR] Processor failed: ");
    push_str(&mut r, detail);
    r
}

/// The text of an error with its causes, given the messages of its chain (the error first,
/// then each cause): the messages joined by `": "`, as anyhow's alternate `Display` prints it.
pub fn chain_text(chain: &Vec<String>) -> (r: String)
    ensures
        r@ == joined(chain@.map_values(|m: String| m@), ": "@),
{
    let ghost msgs = chain@.map_values(|m: String| m@);
    let mut r = String::new();
    let mut i: usize = 0;
    while i < chain.len()
        invariant
            i <= chain@.len(),
            msgs == chain@.map_values(|m: String| m@),
            r@ == joined(msgs.subrange(0, i as int), ": "@),
        decreases chain@.len() - i,
    {
        let ghost before = r@;
        let ghost next = msgs.subrange(0, i + 1);
        assert(next.drop_last() =~= msgs.subrange(0, i as int));
        assert(next.last() == chain@[i as int]@);
        if i > 0 {
            push_str(&mut r, ": ");
        }
        push_str(&mut r, chain[i].as_str());
        if i == 0 {
            assert(r@ =~= chain@[0]@);
        } else {
            assert(r@ =~= before + ": "@ + chain@[i as int]@);
        }
        i = i + 1;
    }
    assert(msgs.subrange(0, chain@.len() as int) =~= msgs);
    r
}

/// The log entry for a failed run: the failure prefix, then the error's chain of messages (the
/// error first, then each cause) joined by `": "`.
pub fn preprocess_error_message(chain: &Vec<String>) -> (r: String)
    ensures
        r@ == "[ERROR] Processor failed: "@ + joined(chain@.map_values(|m: String| m@), ": "@),
{
    let detail = chain_text(chain);
    preprocess_error_text(detail.as_str())
}

/// How long ago a file was edited, in whole days of `elapsed_secs`.
pub open spec fn spec_edited_ago(elapsed_secs: u64) -> Seq<char> {
    let days = elapsed_secs / 86400;
    if days == 0 {
        "edited today"@
    } else if days == 1 {
        "edited yesterday"@
    } else {
        "edited "@ + decimal(days as nat) + " days ago"@
    }
}

/// "edited today", "edited yesterday" or "edited N days ago", for a file last modified
/// `elapsed_secs` seconds ago.
pub fn edited_ago(elapsed_secs: u64) -> (r: String)
    ensures
        r@ == spec_edited_ago(elapsed_secs),
{
    let days = elapsed_secs / 86400;
    if days == 0 {
        owned("edited today")
    } else if days == 1 {
        owned("edited yesterday")
    } else {
        let mut r = owned("edited ");
        push_str(&mut r, u64_to_text(days).as_str());
        push_str(&mut r, " days ago");
        r
    }
}

/// The parts of a config's summary line, before they are joined with `" · "`.
pub open spec fn summary_parts(settings: nat, chained: nat, edited: Option<Seq<char>>) -> Seq<
    Seq<char>,
> {
    let first = seq![decimal(settings) + " settings"@];
    let with_chain = if chained > 0 {
        first.push(
            "runs "@ + decimal(chained) + " secondary config"@ + if chained == 1 {
                Seq::empty()
            } else {
                "s"@
            },
        )
    } else {
        first
    };
    match edited {
        Some(e) => with_chain.push(e),
        None => with_chain,
    }
}

/// `parts` joined with `sep` between neighbours.
pub open spec fn joined(parts: Seq<Seq<char>>, sep: Seq<char>) -> Seq<char>
    decreases parts.len(),
{
    if parts.len() == 0 {
        Seq::empty()
    } else if parts.len() == 1 {
        parts[0]
    } else {
        joined(parts.drop_last(), sep) + sep + parts.last()
    }
}

/// `14 settings · runs 2 secondary configs · edited today`: the summary of a saved config with
/// `settings` settings, `chained` secondary configs and, when known, how long ago it was edited.
pub fn describe_config(settings: usize, chained: usize, edited: Option<String>) -> (r: String)
    ensures
        r@ == joined(
            summary_parts(
                settings as nat,
                chained as nat,
                match edited {
                    Some(e) => Some(e@),
                    None => None,
                },
            ),
            " \u{b7} "@,
        ),
{
    let mut r = usize_to_text(settings);
    push_str(&mut r, " settings");
    let ghost p1 = seq![r@];
    assert(joined(p1, " \u{b7} "@) == r@);
    let ghost mut parts = p1;
    if chained > 0 {
        let mut c = owned("runs ");
        push_str(&mut c, usize_to_text(chained).as_str());
        push_str(&mut c, " secondary config");
        if chained != 1 {
            push_str(&mut c, "s");
        } else {
            assert(c@ =~= c@ + Seq::<char>::empty());
        }
        let ghost before = r@;
        push_str(&mut r, " \u{b7} ");
        push_str(&mut r, c.as_str());
        assert(r@ =~= before + " \u{b7} "@ + c@);
        proof {
            let np = parts.push(c@);
            assert(np.drop_last() =~= parts);
            assert(joined(np, " \u{b7} "@) == joined(parts, " \u{b7} "@) + " \u{b7} "@ + c@);
            parts = np;
        }
    }
    match edited {
        Some(e) => {
            let ghost before = r@;
            push_str(&mut r, " \u{b7} ");
            push_str(&mut r, e.as_str());
            assert(r@ =~= before + " \u{b7} "@ + e@);
            proof {
                let np = parts.push(e@);
                assert(np.drop_last() =~= parts);
                assert(joined(np, " \u{b7} "@) == joined(parts, " \u{b7} "@) + " \u{b7} "@ + e@);
                parts = np;
            }
        },
        None => {},
    }
    assert(parts =~= summary_parts(
        settings as nat,
        chained as nat,
        match edited {
            Some(e) => Some(e@),
            None => None,
        },
    ));
    r
}

/// The log's text after `message` is appended: the message alone when the log is empty, else on
/// a line of its own.
pub open spec fn spec_appended_log(current: Seq<char>, message: Seq<char>) -> Seq<char> {
    if current.len() == 0 {
        message
    } else {
        current + "\n"@ + message
    }
}

/// The log's text after `message` is appended.
pub fn appended_log(current: &str, message: &str) -> (r: String)
    ensures
        r@ == spec_appended_log(current@, message@),
{
    if current.unicode_len() == 0 {
        owned(message)
    } else {
        let mut r = owned(current);
        push_str(&mut r, "\n");
        push_str(&mut r, message);
        r
    }
}

} // verus!

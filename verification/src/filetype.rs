//! Content sniffing: classify raw content as CSV, JSON or unknown from a
//! format hint, falling back to the locator's trailing filename extension.
use vstd::prelude::*;

use crate::chars::{
    chars_eq, has_char, has_char_exec, lower_chars, lower_vec, str_to_chars,
    suffix_after_last, suffix_after_last_exec,
};

verus! {

/// Classification of raw content fetched from a locator.
#[derive(Debug, PartialEq, Eq, Clone, Copy, Structural)]
#[non_exhaustive]
pub enum Filetype {
    Unknown,
    Csv,
    Json,
}

/// The filetype named by `name`: `Csv` or `Json` when `name` lower-cases to
/// exactly `csv` or `json`, `Unknown` otherwise.
pub open spec fn spec_filetype_of(name: Seq<char>) -> Filetype {
    if lower_chars(name) == "csv"@ {
        Filetype::Csv
    } else if lower_chars(name) == "json"@ {
        Filetype::Json
    } else {
        Filetype::Unknown
    }
}

/// Classify a type name: a lower-cased match against `csv`/`json`; a missing
/// name is unknown.
pub fn get_data_filetype(tp: Option<&str>) -> (r: Filetype)
    ensures
        r == (match tp {
            Some(s) => spec_filetype_of(s@),
            None => Filetype::Unknown,
        }),
{
    match tp {
        None => Filetype::Unknown,
        Some(s) => {
            let cs = str_to_chars(s);
            let lowered = lower_vec(&cs);
            let csv = str_to_chars("csv");
            let json = str_to_chars("json");
            if chars_eq(&lowered, &csv) {
                Filetype::Csv
            } else if chars_eq(&lowered, &json) {
                Filetype::Json
            } else {
                Filetype::Unknown
            }
        },
    }
}

/// The classification a format hint yields: the hint reduced to its last
/// `/`-delimited segment (`application/json` becomes `json`), then matched.
pub open spec fn spec_hint_filetype(hint: Seq<char>) -> Filetype {
    spec_filetype_of(suffix_after_last(hint, '/'))
}

/// The classification a locator's tail yields: its last `/`-delimited
/// segment's trailing extension, when that segment has one.
pub open spec fn spec_extension_filetype(locator: Seq<char>) -> Filetype {
    let seg = suffix_after_last(locator, '/');
    if has_char(seg, '.') {
        spec_filetype_of(suffix_after_last(seg, '.'))
    } else {
        Filetype::Unknown
    }
}

/// Two-stage sniffing: the hint decides when it is recognized, else the
/// locator's extension; anything unmatched is `Unknown`.
pub open spec fn spec_sniff(hint: Option<Seq<char>>, locator: Seq<char>) -> Filetype {
    let by_hint = match hint {
        Some(h) => spec_hint_filetype(h),
        None => Filetype::Unknown,
    };
    if by_hint != Filetype::Unknown {
        by_hint
    } else {
        spec_extension_filetype(locator)
    }
}

/// Classify fetched content from its format hint, falling back to the
/// locator's trailing extension. Never fails: unmatched input is `Unknown`.
pub fn sniff(hint: Option<&str>, locator: &str) -> (r: Filetype)
    ensures
        r == spec_sniff(
            match hint {
                Some(h) => Some(h@),
                None => None,
            },
            locator@,
        ),
{
    let by_hint = match hint {
        None => Filetype::Unknown,
        Some(h) => {
            let hc = str_to_chars(h);
            let seg = suffix_after_last_exec(&hc, '/');
            let seg_s = crate::chars::chars_to_string(&seg);
            get_data_filetype(Some(seg_s.as_str()))
        },
    };
    match by_hint {
        Filetype::Unknown => {
            let lc = str_to_chars(locator);
            let seg = suffix_after_last_exec(&lc, '/');
            if has_char_exec(&seg, '.') {
                let ext = suffix_after_last_exec(&seg, '.');
                let ext_s = crate::chars::chars_to_string(&ext);
                get_data_filetype(Some(ext_s.as_str()))
            } else {
                Filetype::Unknown
            }
        },
        other => other,
    }
}

} // verus!

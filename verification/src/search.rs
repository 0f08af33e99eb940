//! The pipe-friendly search backend: results newest first, and the lines
//! printed for each output format.

use vstd::prelude::*;
use crate::text::{trim, trim_str, chars_of, concat_str, join_strings, join_sep, str_eq};
use crate::tag_set::views;
use crate::numfmt::{signed_decimal, signed_string};
use crate::order::{is_ranking, stable_rank_desc};

verus! {

/// How many results a search collects.
pub const SEARCH_LIMIT: usize = 200;

/// One search hit.
pub struct SearchResult {
    pub from: String,
    pub subject: String,
    /// Seconds since the epoch.
    pub date_ts: i64,
    pub message_id: String,
    pub path: String,
    pub tags: Vec<String>,
}

/// A blank query matches every message.
pub fn matches_everything(query: &str) -> (r: bool)
    ensures
        r == (trim(query@).len() == 0),
{
    chars_of(trim_str(query).as_str()).len() == 0
}

/// The refusal of a query the parser rejects.
pub open spec fn invalid_query_text(query: Seq<char>, err: Seq<char>) -> Seq<char> {
    "Invalid query: '"@ + query
        + "'\n\nHints:\n- Try simple terms: hamster\n- Search a field: from:hamster@example.com\n- Combine fields: from:hamster AND subject:wheel\n- List tags: tags:unread\n\nError: "@
        + err
}

pub fn invalid_query_message(query: &str, err: &str) -> (r: String)
    ensures
        r@ == invalid_query_text(query@, err@),
{
    let s = concat_str("Invalid query: '", query);
    let s = concat_str(
        s.as_str(),
        "'\n\nHints:\n- Try simple terms: hamster\n- Search a field: from:hamster@example.com\n- Combine fields: from:hamster AND subject:wheel\n- List tags: tags:unread\n\nError: ",
    );
    concat_str(s.as_str(), err)
}

/// The dates of the results, as ordering keys.
pub open spec fn date_keys(dates: Seq<i64>) -> Seq<i128> {
    dates.map_values(|d: i64| d as i128)
}

/// The positions of the results, newest first; equal dates keep their
/// order.
pub fn newest_first(dates: &Vec<i64>) -> (r: Vec<usize>)
    ensures
        is_ranking(date_keys(dates@), r@),
{
    let mut keys: Vec<i128> = Vec::new();
    let mut i: usize = 0;
    while i < dates.len()
        invariant
            i <= dates@.len(),
            keys@ == date_keys(dates@.take(i as int)),
        decreases dates.len() - i,
    {
        keys.push(dates[i] as i128);
        assert(keys@ =~= date_keys(dates@.take(i + 1)));
        i += 1;
    }
    assert(dates@.take(dates@.len() as int) =~= dates@);
    stable_rank_desc(&keys)
}

/// The plain line of a result: date, sender and subject separated by tabs,
/// then its tags in brackets when it has any.
pub open spec fn plain_line(r: SearchResult) -> Seq<char> {
    let tags = if r.tags@.len() == 0 {
        Seq::empty()
    } else {
        " ["@ + join_sep(views(r.tags@), ", "@) + "]"@
    };
    signed_decimal(r.date_ts as int) + "\t"@ + r.from@ + "\t"@ + r.subject@ + tags
}

/// The line printed for a result in a format other than `json`: its id for
/// `ids`, its path for `paths`, else the plain line.
pub open spec fn result_line(r: SearchResult, format: Seq<char>) -> Seq<char> {
    if format == "ids"@ {
        r.message_id@
    } else if format == "paths"@ {
        r.path@
    } else {
        plain_line(r)
    }
}

pub fn format_result_line(r: &SearchResult, format: &str) -> (line: String)
    ensures
        line@ == result_line(*r, format@),
{
    if str_eq(format, "ids") {
        r.message_id.clone()
    } else if str_eq(format, "paths") {
        r.path.clone()
    } else {
        let d = signed_string(r.date_ts);
        let s = concat_str(d.as_str(), "\t");
        let s = concat_str(s.as_str(), r.from.as_str());
        let s = concat_str(s.as_str(), "\t");
        let s = concat_str(s.as_str(), r.subject.as_str());
        if r.tags.len() == 0 {
            s
        } else {
            let j = join_strings(&r.tags, ", ");
            let s = concat_str(s.as_str(), " [");
            let s = concat_str(s.as_str(), j.as_str());
            concat_str(s.as_str(), "]")
        }
    }
}

/// The lines printed for the results in a format other than `json`.
pub fn result_lines(results: &Vec<SearchResult>, format: &str) -> (r: Vec<String>)
    ensures
        r@.len() == results@.len(),
        forall|i: int| 0 <= i < r@.len() ==> (#[trigger] r@[i])@ == result_line(results@[i], format@),
{
    let mut r: Vec<String> = Vec::new();
    let mut i: usize = 0;
    while i < results.len()
        invariant
            i <= results@.len(),
            r@.len() == i,
            forall|k: int| 0 <= k < i ==> (#[trigger] r@[k])@ == result_line(results@[k], format@),
        decreases results.len() - i,
    {
        r.push(format_result_line(&results[i], format));
        i += 1;
    }
    r
}

} // verus!

//! The ordered report of a multi-file run: one line per file in the order
//! the files were given, cut short at the first file that failed to read.

use vstd::prelude::*;
use crate::config::Config;
use crate::counts::WcCounts;
use crate::format::{format_output, output_line};

verus! {

/// Why an input source could not be read.
#[derive(Debug, PartialEq, Eq)]
pub enum IoError {
    NotFound,
    PermissionDenied,
    Other(String),
}

/// The position of the first failed source at or after `i`, if any.
pub open spec fn first_err_from(rs: Seq<Result<WcCounts, IoError>>, i: int) -> Option<int>
    decreases rs.len() - i,
{
    if i < 0 || i >= rs.len() {
        None
    } else if rs[i] is Err {
        Some(i)
    } else {
        first_err_from(rs, i + 1)
    }
}

/// The position of the first failed source, if any.
pub open spec fn first_err(rs: Seq<Result<WcCounts, IoError>>) -> Option<int> {
    first_err_from(rs, 0)
}

/// How many per-file lines are printed: everything before the first
/// failure, or every file when none failed.
pub open spec fn printed_prefix_len(rs: Seq<Result<WcCounts, IoError>>) -> int {
    match first_err(rs) {
        Some(i) => i,
        None => rs.len() as int,
    }
}

proof fn lemma_first_err_seek(rs: Seq<Result<WcCounts, IoError>>, k: int, i: int)
    requires
        0 <= k <= i < rs.len(),
        forall|t: int| k <= t < i ==> rs[t] is Ok,
        rs[i] is Err,
    ensures
        first_err_from(rs, k) == Some(i),
    decreases i - k,
{
    if k < i {
        lemma_first_err_seek(rs, k + 1, i);
    }
}

proof fn lemma_first_err_clean(rs: Seq<Result<WcCounts, IoError>>, k: int)
    requires
        0 <= k,
        forall|t: int| k <= t < rs.len() ==> rs[t] is Ok,
    ensures
        first_err_from(rs, k) is None,
    decreases rs.len() - k,
{
    if k < rs.len() {
        lemma_first_err_clean(rs, k + 1);
    }
}

/// Render the per-file lines of a run, in the order the files were given.
///
/// The lines cover exactly the files before the first read failure — later
/// results, successful or not, are not rendered, just as the run stops at
/// the first failure after printing what came before it. The second part of
/// the pair is the position of the failed file, or `None` when every file
/// was read. The order never depends on when each read finished: result `k`
/// is rendered against file name `k`.
pub fn render_results(config: &Config, results: &Vec<Result<WcCounts, IoError>>) -> (r: (
    Vec<String>,
    Option<usize>,
))
    requires
        results@.len() == config.files@.len(),
    ensures
        r.1 is Some <==> first_err(results@) is Some,
        r.1 matches Some(f) ==> first_err(results@) == Some(f as int),
        r.0@.len() == printed_prefix_len(results@),
        forall|k: int|
            0 <= k < r.0@.len() ==> results@[k] is Ok && r.0@[k]@ == output_line(
                results@[k]->Ok_0,
                *config,
                Some(config.files@[k]@),
            ),
{
    let n: usize = results.len();
    let mut lines: Vec<String> = Vec::new();
    let mut i: usize = 0;
    while i < n
        invariant
            0 <= i <= n,
            n == results@.len(),
            results@.len() == config.files@.len(),
            lines@.len() == i,
            forall|k: int| 0 <= k < i ==> results@[k] is Ok,
            forall|k: int|
                0 <= k < i ==> lines@[k]@ == output_line(
                    results@[k]->Ok_0,
                    *config,
                    Some(config.files@[k]@),
                ),
        decreases n - i,
    {
        match &results[i] {
            Ok(c) => {
                let name: &str = config.files[i].as_str();
                let line = format_output(c, config, Some(name));
                lines.push(line);
            },
            Err(_) => {
                proof {
                    lemma_first_err_seek(results@, 0, i as int);
                }
                return (lines, Some(i));
            },
        }
        i = i + 1;
    }
    proof {
        lemma_first_err_clean(results@, 0);
    }
    (lines, None)
}

} // verus!

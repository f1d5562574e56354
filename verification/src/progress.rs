//! When progress is reported, and how.
use vstd::prelude::*;
use vstd::string::StringExecFns;

use crate::text::{decimal, decimal_text, text_of};

verus! {

/// The number of rows in an interval where the user names none.
pub const DEFAULT_PROGRESS_INTERVAL: usize = 100;

/// The interval of progress reports for a flag that may be missing, or given
/// with or without a number.
pub open spec fn interval(flag: Option<Option<usize>>) -> Option<usize> {
    match flag {
        None => None,
        Some(None) => Some(DEFAULT_PROGRESS_INTERVAL),
        Some(Some(n)) => Some(n),
    }
}

/// The interval of progress reports for a flag that may be missing, or given
/// with or without a number.
pub fn progress_interval(flag: Option<Option<usize>>) -> (r: Option<usize>)
    ensures
        r == interval(flag),
{
    match flag {
        None => None,
        Some(None) => Some(DEFAULT_PROGRESS_INTERVAL),
        Some(Some(n)) => Some(n),
    }
}

/// The line that reports progress.
pub open spec fn progress_text(processed: usize, total: Option<usize>) -> Seq<char> {
    "[progress] "@ + decimal(processed as nat) + "/"@ + (match total {
        Some(n) => decimal(n as nat),
        None => "unknown"@,
    }) + " rows processed"@
}

/// Whether progress is reported at all.
pub open spec fn reporting(every: Option<usize>) -> bool {
    every is Some && every->0 > 0
}

/// Whether a row was the last of an interval.
pub open spec fn at_interval(processed: usize, every: Option<usize>) -> bool {
    processed as int % every->0 as int == 0
}

/// The line after a row: at the end of an interval, and at the last row of a
/// known total.
pub open spec fn row_report(processed: usize, total: Option<usize>, every: Option<usize>) -> Option<
    Seq<char>,
> {
    if reporting(every) && processed > 0 && (at_interval(processed, every) || total == Some(
        processed,
    )) {
        Some(progress_text(processed, total))
    } else {
        None
    }
}

/// The line after the last row, unless that ended an interval.
pub open spec fn final_report(
    processed: usize,
    total: Option<usize>,
    every: Option<usize>,
) -> Option<Seq<char>> {
    if reporting(every) && processed > 0 && !at_interval(processed, every) {
        Some(
            progress_text(
                processed,
                match total {
                    Some(n) => Some(n),
                    None => Some(processed),
                },
            ),
        )
    } else {
        None
    }
}

/// Whether `divisor` divides `value`.
pub fn is_multiple_of(value: usize, divisor: usize) -> (r: bool)
    requires
        divisor > 0,
    ensures
        r == (value as int % divisor as int == 0),
{
    value % divisor == 0
}

/// The line that reports progress.
pub fn emit_progress(processed: usize, total: Option<usize>) -> (r: String)
    ensures
        r@ == progress_text(processed, total),
{
    let total = match total {
        Some(n) => decimal_text(n as u64),
        None => "unknown".to_owned(),
    };
    "[progress] ".to_owned().concat(decimal_text(processed as u64).as_str()).concat("/").concat(
        total.as_str(),
    ).concat(" rows processed")
}

/// The line to print after a row, if any.
pub fn maybe_emit_progress(processed: usize, total: Option<usize>, every: Option<usize>) -> (r:
    Option<String>)
    ensures
        text_of(r) == row_report(processed, total, every),
{
    match every {
        Some(every) => {
            if every > 0 && processed > 0 && (is_multiple_of(processed, every) || total == Some(
                processed,
            )) {
                Some(emit_progress(processed, total))
            } else {
                None
            }
        },
        None => None,
    }
}

/// The line to print after the last row, if any.
pub fn emit_final_progress(processed: usize, total: Option<usize>, every: Option<usize>) -> (r:
    Option<String>)
    ensures
        text_of(r) == final_report(processed, total, every),
{
    match every {
        Some(every) => {
            if every > 0 && processed > 0 && !is_multiple_of(processed, every) {
                let total = match total {
                    Some(n) => Some(n),
                    None => Some(processed),
                };
                Some(emit_progress(processed, total))
            } else {
                None
            }
        },
        None => None,
    }
}

/// Every interval of `every` rows is reported as it ends, and the rows behind
/// the last interval are reported at the end: the last line that is printed
/// counts every row.
pub proof fn every_interval_is_reported(
    processed: usize,
    total: Option<usize>,
    every: Option<usize>,
)
    requires
        reporting(every),
        processed > 0,
    ensures
        processed as int % every->0 as int == 0 ==> row_report(processed, total, every) == Some(
            progress_text(processed, total),
        ),
        row_report(processed, total, every) is Some || final_report(processed, total, every) is Some,
{
}

/// Without an interval, or with an interval of no rows, nothing is reported.
pub proof fn nothing_is_reported_unasked(
    processed: usize,
    total: Option<usize>,
    every: Option<usize>,
)
    requires
        every is None || every == Some(0usize),
    ensures
        row_report(processed, total, every) is None,
        final_report(processed, total, every) is None,
{
}

/// A line of progress has the number of rows that were processed and, behind a
/// slash, the total or that it is not known.
pub proof fn progress_line_shows_both_numbers(processed: usize, total: Option<usize>)
    ensures
        total is Some ==> progress_text(processed, total) == "[progress] "@ + decimal(
            processed as nat,
        ) + "/"@ + decimal(total->0 as nat) + " rows processed"@,
        total is None ==> progress_text(processed, total) == "[progress] "@ + decimal(
            processed as nat,
        ) + "/unknown rows processed"@,
{
    reveal_strlit("/");
    reveal_strlit("unknown");
    reveal_strlit(" rows processed");
    reveal_strlit("/unknown rows processed");
    if total is None {
        assert("/"@ + "unknown"@ + " rows processed"@ =~= "/unknown rows processed"@);
        assert(progress_text(processed, total) =~= "[progress] "@ + decimal(processed as nat) + (
        "/"@ + "unknown"@ + " rows processed"@));
    }
}

/// After a row there is a line exactly if reports are wanted every so many rows and
/// the row ends such a stretch or is the last of a known total; it has the numbers
/// as they are. At the end there is a line exactly if the last row ended no
/// stretch; a total that is not known is then the number of rows.
pub proof fn progress_comes_when_it_is_due(
    processed: usize,
    total: Option<usize>,
    every: Option<usize>,
)
    ensures
        ({
            let wanted = every is Some && every->0 > 0 && processed > 0;
            let ends = processed as int % every->0 as int == 0;
            let row = row_report(processed, total, every);
            let end = final_report(processed, total, every);
            &&& row is Some <==> wanted && (ends || (total is Some && total->0 == processed))
            &&& row is Some ==> row->0 == progress_text(processed, total)
            &&& end is Some <==> wanted && !ends
            &&& end is Some && total is Some ==> end->0 == progress_text(processed, total)
            &&& end is Some && total is None ==> end->0 == progress_text(
                processed,
                Some(processed),
            )
        }),
{
}

/// A flag with a number asks for reports every so many rows, one without a number
/// every hundred rows, and no flag for none.
pub proof fn flags_ask_for_intervals(n: usize)
    ensures
        interval(Some(Some(n))) == Some(n),
        interval(Some(None)) == Some(100usize),
        interval(None) is None,
{
}

} // verus!

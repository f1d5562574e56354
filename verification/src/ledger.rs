//! The ledger of imported rows, and why importing a file again repeats nothing.
//!
//! What an import does with a ledger and a service is the composition of the
//! steps of an import job; here it is written down and its properties are
//! proved.
use vstd::prelude::*;
use vstd::utf8::encode_utf8;

use crate::codec::{json_compact, json_decoded};
use crate::fields::id_of;
use crate::hash::fnv1a;
use crate::import::{
    has_room, hash_step, id_step, is_idle, is_row, line_step, recorded_step, reply_step, row_error,
    row_count, row_in, settled, started, ActionView, ImportJob, ImportRowView, RecordView,
};
use crate::json::JsonView;
use crate::request::{client_error, FailureView};
use crate::text::{hexadecimal, lemma_trimmed_twice, trimmed};

verus! {

/// An entry of the ledger: the file and the hash of the row, and the identifier
/// of the memory if it is known.
pub struct Entry {
    pub source: Seq<char>,
    pub line_hash: Seq<char>,
    pub memory_id: Option<Seq<char>>,
}

/// The ledger.
pub type Ledger = Set<Entry>;

/// Whether the ledger has an entry with an identifier.
pub open spec fn has_id(ledger: Ledger, id: Seq<char>) -> bool {
    exists|entry: Entry| ledger.contains(entry) && entry.memory_id == Some(id)
}

/// Whether the ledger has an entry for a file with a hash.
pub open spec fn has_line(ledger: Ledger, source: Seq<char>, line_hash: Seq<char>) -> bool {
    exists|entry: Entry|
        ledger.contains(entry) && entry.source == source && entry.line_hash == line_hash
}

/// Whether an entry would repeat the file and hash, or the identifier, of
/// another.
pub open spec fn repeats(ledger: Ledger, entry: Entry) -> bool {
    has_line(ledger, entry.source, entry.line_hash) || (entry.memory_id is Some && has_id(
        ledger,
        entry.memory_id->0,
    ))
}

/// The ledger after the attempt to enter an entry: one that would repeat another
/// is left out.
pub open spec fn attempted(ledger: Ledger, entry: Entry) -> Ledger {
    if repeats(ledger, entry) {
        ledger
    } else {
        ledger.insert(entry)
    }
}

/// How many entries the attempt changes.
pub open spec fn changed_by(ledger: Ledger, entry: Entry) -> usize {
    if repeats(ledger, entry) {
        0
    } else {
        1
    }
}

/// The ledger after a row was entered. Where it has the file and the hash, it
/// stays; where it has the identifier for another row, the row is entered without
/// it.
pub open spec fn entered(ledger: Ledger, entry: Entry) -> Ledger {
    if has_line(ledger, entry.source, entry.line_hash) {
        ledger
    } else if entry.memory_id is Some && has_id(ledger, entry.memory_id->0) {
        ledger.insert(Entry { memory_id: None, ..entry })
    } else {
        ledger.insert(entry)
    }
}

/// How many entries there are, as far as a job looks at it.
pub open spec fn count_of(any: bool) -> i64 {
    if any {
        1
    } else {
        0
    }
}

/// A service's reply.
pub type Reply = Result<JsonView, FailureView>;

/// Where an import stands: the job, the ledger, what the job asks for, and the
/// text that was sent to the service for the last line, if any.
pub struct Standing {
    pub job: ImportJob,
    pub ledger: Ledger,
    pub action: ActionView,
    pub sent: Option<Seq<char>>,
}

/// The entry that a job asks for.
pub open spec fn entry_for(source: Seq<char>, record: RecordView) -> Entry {
    Entry { source, line_hash: record.row.line_hash, memory_id: record.memory_id }
}

/// Carries out a request to try to enter a row.
pub open spec fn after_attempt(
    job: ImportJob,
    action: ActionView,
    source: Seq<char>,
    ledger: Ledger,
    text: Seq<char>,
) -> Standing {
    match action {
        ActionView::Record(record) => {
            let entry = entry_for(source, record);
            let (next, step) = recorded_step(job, record, changed_by(ledger, entry));
            Standing {
                job: next,
                ledger: attempted(ledger, entry),
                action: step.action,
                sent: Some(text),
            }
        },
        _ => Standing { job, ledger, action, sent: Some(text) },
    }
}

/// Carries out a request to enter a row, with and if need be without its
/// identifier.
pub open spec fn after_reply(
    job: ImportJob,
    action: ActionView,
    source: Seq<char>,
    ledger: Ledger,
    text: Seq<char>,
) -> Standing {
    let first = after_attempt(job, action, source, ledger, text);
    after_attempt(first.job, first.action, source, first.ledger, text)
}

/// Carries out a request to send a row, which gets `reply`.
pub open spec fn after_hash(
    job: ImportJob,
    action: ActionView,
    source: Seq<char>,
    ledger: Ledger,
    reply: Reply,
) -> Standing {
    match action {
        ActionView::Post(row, text) => {
            let (next, step) = reply_step(job, row, reply);
            after_reply(next, step.action, source, ledger, text)
        },
        _ => Standing { job, ledger, action, sent: None },
    }
}

/// Carries out a request to look for the hash of a row.
pub open spec fn after_id(
    job: ImportJob,
    action: ActionView,
    source: Seq<char>,
    ledger: Ledger,
    reply: Reply,
) -> Standing {
    match action {
        ActionView::FindLine(row) => {
            let (next, step) = hash_step(
                job,
                row,
                count_of(has_line(ledger, source, row.line_hash)),
            );
            after_hash(next, step.action, source, ledger, reply)
        },
        _ => Standing { job, ledger, action, sent: None },
    }
}

/// Carries out a request to look for the identifier of a row.
pub open spec fn after_line(
    job: ImportJob,
    action: ActionView,
    source: Seq<char>,
    ledger: Ledger,
    reply: Reply,
) -> Standing {
    match action {
        ActionView::FindId(row) => {
            let (next, step) = id_step(job, row, count_of(has_id(ledger, row.input_id->0)));
            after_id(next, step.action, source, ledger, reply)
        },
        _ => after_id(job, action, source, ledger, reply),
    }
}

/// What becomes of one line, if the service replies so when it is sent the row.
pub open spec fn line_run(
    job: ImportJob,
    line: Seq<char>,
    source: Seq<char>,
    ledger: Ledger,
    reply: Reply,
) -> Standing {
    let (next, step) = line_step(job, line, json_decoded(trimmed(line)));
    after_line(next, step.action, source, ledger, reply)
}

/// What becomes of some lines, one after the other until the job stops; the reply
/// at an index is the one to the line at that index.
pub open spec fn import_run(
    job: ImportJob,
    lines: Seq<Seq<char>>,
    source: Seq<char>,
    ledger: Ledger,
    replies: spec_fn(int) -> Reply,
) -> Standing
    decreases lines.len(),
{
    if lines.len() == 0 {
        Standing { job, ledger, action: ActionView::NextLine, sent: None }
    } else {
        let before = import_run(job, lines.drop_last(), source, ledger, replies);
        if before.action is NextLine {
            line_run(before.job, lines.last(), source, before.ledger, replies(lines.len() - 1))
        } else {
            before
        }
    }
}

/// The texts that are sent to the service for some lines, in order.
pub open spec fn texts_sent(
    job: ImportJob,
    lines: Seq<Seq<char>>,
    source: Seq<char>,
    ledger: Ledger,
    replies: spec_fn(int) -> Reply,
) -> Seq<Seq<char>>
    decreases lines.len(),
{
    if lines.len() == 0 {
        Seq::empty()
    } else {
        let earlier = texts_sent(job, lines.drop_last(), source, ledger, replies);
        let went_on = import_run(job, lines.drop_last(), source, ledger, replies).action
            is NextLine;
        match import_run(job, lines, source, ledger, replies).sent {
            Some(text) if went_on => earlier.push(text),
            _ => earlier,
        }
    }
}

/// Whether a line holds a row that can be imported.
pub open spec fn is_good(line: Seq<char>) -> bool {
    &&& is_row(line)
    &&& json_decoded(trimmed(line)) is Ok
    &&& row_error(json_decoded(trimmed(line))->Ok_0) is None
}

/// The row of a line that can be imported.
pub open spec fn good_row(line: Seq<char>) -> ImportRowView {
    row_in(0, trimmed(line), json_decoded(trimmed(line))->Ok_0)
}

/// Whether the ledger knows a row: by its identifier, or by the hash of its line.
pub open spec fn knows(ledger: Ledger, source: Seq<char>, line: Seq<char>) -> bool {
    let row = good_row(line);
    (row.input_id is Some && has_id(ledger, row.input_id->0)) || has_line(
        ledger,
        source,
        row.line_hash,
    )
}

/// The number of rows that the service has, as far as a job knows.
pub open spec fn done(job: ImportJob) -> int {
    job.result.imported + job.result.skipped_existing
}

/// What a job does with a line, in terms of the counts: a blank line changes
/// none, and every row raises exactly one of them, unless the import is given up.
pub proof fn every_row_counts_once(
    job: ImportJob,
    line: Seq<char>,
    source: Seq<char>,
    ledger: Ledger,
    reply: Reply,
)
    requires
        is_idle(job),
        has_room(job),
    ensures
        ({
            let after = line_run(job, line, source, ledger, reply);
            &&& after.job.result.processed == job.result.processed + (if is_row(line) {
                1int
            } else {
                0int
            })
            &&& after.job.result.total == job.result.total
            &&& after.job.options == job.options
            &&& after.action is NextLine || after.action is Stop || after.action is Abort
            &&& !(after.action is Abort) ==> is_idle(after.job)
            &&& after.action is Abort ==> settled(after.job.result) == settled(job.result)
            &&& after.job.result.imported >= job.result.imported
            &&& after.job.result.skipped_existing >= job.result.skipped_existing
            &&& after.job.result.failed >= job.result.failed
        }),
{
}

/// A job that skips bad rows does not stop at one.
pub proof fn skipping_goes_on(
    job: ImportJob,
    line: Seq<char>,
    source: Seq<char>,
    ledger: Ledger,
    reply: Reply,
)
    requires
        job.options.skip_bad,
    ensures
        !(line_run(job, line, source, ledger, reply).action is Stop),
{
}

/// A job that does not skip bad rows stops at the first: as long as it goes on,
/// none has failed.
pub proof fn first_bad_row_stops(
    job: ImportJob,
    line: Seq<char>,
    source: Seq<char>,
    ledger: Ledger,
    reply: Reply,
)
    requires
        is_idle(job),
        has_room(job),
        !job.options.skip_bad,
    ensures
        ({
            let after = line_run(job, line, source, ledger, reply);
            after.job.result.failed > job.result.failed <==> after.action is Stop
        }),
{
}

/// Nothing leaves the ledger.
pub proof fn ledger_only_grows(
    job: ImportJob,
    line: Seq<char>,
    source: Seq<char>,
    ledger: Ledger,
    reply: Reply,
)
    ensures
        ledger.subset_of(line_run(job, line, source, ledger, reply).ledger),
{
}

proof fn lemma_knows_more(small: Ledger, large: Ledger, source: Seq<char>, line: Seq<char>)
    requires
        small.subset_of(large),
        knows(small, source, line),
    ensures
        knows(large, source, line),
{
    let row = good_row(line);
    if row.input_id is Some && has_id(small, row.input_id->0) {
        let entry = choose|entry: Entry|
            small.contains(entry) && entry.memory_id == Some(row.input_id->0);
        assert(large.contains(entry) && entry.memory_id == Some(row.input_id->0));
    } else {
        let entry = choose|entry: Entry|
            small.contains(entry) && entry.source == source && entry.line_hash == row.line_hash;
        assert(large.contains(entry) && entry.source == source && entry.line_hash
            == row.line_hash);
    }
}

/// A row that the ledger knows is not sent: it is skipped, and nothing else
/// changes.
pub proof fn known_row_is_skipped(
    job: ImportJob,
    line: Seq<char>,
    source: Seq<char>,
    ledger: Ledger,
    reply: Reply,
)
    requires
        is_idle(job),
        has_room(job),
        is_good(line),
        knows(ledger, source, line),
    ensures
        ({
            let after = line_run(job, line, source, ledger, reply);
            &&& after.sent is None
            &&& after.ledger == ledger
            &&& after.action is NextLine
            &&& after.job.result.skipped_existing == job.result.skipped_existing + 1
            &&& after.job.result.imported == job.result.imported
            &&& after.job.result.failed == job.result.failed
        }),
{
}

/// A row that is to be entered is entered: under the hash of its line in any
/// case, and under its identifier unless the ledger has that for another row.
pub proof fn record_is_entered(
    job: ImportJob,
    record: RecordView,
    source: Seq<char>,
    ledger: Ledger,
    text: Seq<char>,
)
    ensures
        ({
            let after = after_reply(job, ActionView::Record(record), source, ledger, text);
            &&& after.ledger == entered(ledger, entry_for(source, record))
            &&& has_line(after.ledger, source, record.row.line_hash)
            &&& after.action is NextLine
        }),
{
    let after = after_reply(job, ActionView::Record(record), source, ledger, text);
    let entry = entry_for(source, record);
    let bare = Entry { memory_id: None, ..entry };
    if !has_line(ledger, source, record.row.line_hash) {
        if entry.memory_id is Some && has_id(ledger, entry.memory_id->0) {
            assert(repeats(ledger, entry));
            assert(!repeats(ledger, bare));
            assert(after.ledger.contains(bare) && bare.source == source && bare.line_hash
                == record.row.line_hash);
        } else {
            assert(!repeats(ledger, entry));
            assert(after.ledger.contains(entry) && entry.source == source && entry.line_hash
                == record.row.line_hash);
        }
    }
}

/// A row that the service has, now or before, is known to the ledger from then
/// on, whatever identifier the service gave it.
pub proof fn done_row_is_known(
    job: ImportJob,
    line: Seq<char>,
    source: Seq<char>,
    ledger: Ledger,
    reply: Reply,
)
    requires
        is_idle(job),
        has_room(job),
        done(line_run(job, line, source, ledger, reply).job) > done(job),
    ensures
        is_good(line),
        knows(line_run(job, line, source, ledger, reply).ledger, source, line),
{
    if knows(ledger, source, line) {
        known_row_is_skipped(job, line, source, ledger, reply);
    } else {
        let (begun, _) = line_step(job, line, json_decoded(trimmed(line)));
        let row = row_in(begun.lines, trimmed(line), json_decoded(trimmed(line))->Ok_0);
        assert(row.line_hash == good_row(line).line_hash);
        match reply_step(begun, row, reply).1.action {
            ActionView::Record(record) => {
                record_is_entered(begun, record, source, ledger, json_compact(row.value));
            },
            _ => {},
        }
    }
}

/// Nothing leaves the ledger in the course of an import.
proof fn lemma_ledger_only_grows(
    job: ImportJob,
    lines: Seq<Seq<char>>,
    source: Seq<char>,
    ledger: Ledger,
    replies: spec_fn(int) -> Reply,
    k: int,
)
    requires
        0 <= k <= lines.len(),
    ensures
        import_run(job, lines.take(k), source, ledger, replies).ledger.subset_of(
            import_run(job, lines, source, ledger, replies).ledger,
        ),
    decreases lines.len(),
{
    if k == lines.len() {
        assert(lines.take(k) =~= lines);
    } else {
        let before = import_run(job, lines.drop_last(), source, ledger, replies);
        assert(lines.drop_last().take(k) =~= lines.take(k));
        lemma_ledger_only_grows(job, lines.drop_last(), source, ledger, replies, k);
        if before.action is NextLine {
            ledger_only_grows(
                before.job,
                lines.last(),
                source,
                before.ledger,
                replies(lines.len() - 1),
            );
        }
    }
}

/// Whether a line was done in the course of an import: the import came to it, and
/// behind it the service has one row more.
pub open spec fn done_at(
    job: ImportJob,
    lines: Seq<Seq<char>>,
    source: Seq<char>,
    ledger: Ledger,
    replies: spec_fn(int) -> Reply,
    k: int,
) -> bool {
    let before = import_run(job, lines.take(k), source, ledger, replies);
    let after = import_run(job, lines.take(k + 1), source, ledger, replies);
    before.action is NextLine && done(after.job) > done(before.job)
}

/// In the course of an import the counts stay in order.
proof fn lemma_run_in_order(
    job: ImportJob,
    lines: Seq<Seq<char>>,
    source: Seq<char>,
    ledger: Ledger,
    replies: spec_fn(int) -> Reply,
)
    requires
        is_idle(job),
        job.lines + lines.len() < usize::MAX,
        job.result.processed + lines.len() < usize::MAX,
    ensures
        ({
            let run = import_run(job, lines, source, ledger, replies);
            &&& run.action is NextLine ==> is_idle(run.job)
            &&& run.job.lines <= job.lines + lines.len()
            &&& run.job.result.processed <= job.result.processed + lines.len()
            &&& run.action is NextLine ==> run.job.lines == job.lines + lines.len()
            &&& run.job.options == job.options
        }),
    decreases lines.len(),
{
    if lines.len() > 0 {
        lemma_run_in_order(job, lines.drop_last(), source, ledger, replies);
        let before = import_run(job, lines.drop_last(), source, ledger, replies);
        if before.action is NextLine {
            every_row_counts_once(
                before.job,
                lines.last(),
                source,
                before.ledger,
                replies(lines.len() - 1),
            );
        }
    }
}

/// An import that comes to the end of a file has processed each of its rows, and
/// unless it is given up every row it processed counts once: as imported, as
/// skipped or as failed.
pub proof fn every_row_of_a_file_counts_once(
    job: ImportJob,
    lines: Seq<Seq<char>>,
    source: Seq<char>,
    ledger: Ledger,
    replies: spec_fn(int) -> Reply,
)
    requires
        is_idle(job),
        job.lines + lines.len() < usize::MAX,
        job.result.processed + lines.len() < usize::MAX,
    ensures
        ({
            let run = import_run(job, lines, source, ledger, replies);
            &&& run.action is NextLine || run.action is Stop || run.action is Abort
            &&& run.action is NextLine ==> run.job.result.processed == job.result.processed
                + row_count(lines)
            &&& !(run.action is Abort) ==> is_idle(run.job)
            &&& run.job.result.total == job.result.total
        }),
    decreases lines.len(),
{
    if lines.len() > 0 {
        every_row_of_a_file_counts_once(job, lines.drop_last(), source, ledger, replies);
        lemma_run_in_order(job, lines.drop_last(), source, ledger, replies);
        let before = import_run(job, lines.drop_last(), source, ledger, replies);
        if before.action is NextLine {
            every_row_counts_once(
                before.job,
                lines.last(),
                source,
                before.ledger,
                replies(lines.len() - 1),
            );
        }
    }
}

/// An import that skips bad rows comes to the end of the file, as long as the
/// service takes every row or blames it.
pub proof fn skipping_reaches_the_end(
    job: ImportJob,
    lines: Seq<Seq<char>>,
    source: Seq<char>,
    ledger: Ledger,
    replies: spec_fn(int) -> Reply,
)
    requires
        job.options.skip_bad,
        forall|k: int|
            0 <= k < lines.len() ==> #[trigger] replies(k) is Ok || client_error(
                replies(k)->Err_0,
            ),
    ensures
        import_run(job, lines, source, ledger, replies).action is NextLine,
        import_run(job, lines, source, ledger, replies).job.options == job.options,
    decreases lines.len(),
{
    if lines.len() > 0 {
        skipping_reaches_the_end(job, lines.drop_last(), source, ledger, replies);
        let reply = replies(lines.len() - 1);
        assert(reply is Ok || client_error(reply->Err_0));
    }
}

/// An import that does not skip bad rows stops at the first: one row fails if it
/// stops, and none otherwise.
pub proof fn at_most_one_row_fails(
    job: ImportJob,
    lines: Seq<Seq<char>>,
    source: Seq<char>,
    ledger: Ledger,
    replies: spec_fn(int) -> Reply,
)
    requires
        is_idle(job),
        job.lines + lines.len() < usize::MAX,
        job.result.processed + lines.len() < usize::MAX,
        !job.options.skip_bad,
    ensures
        ({
            let run = import_run(job, lines, source, ledger, replies);
            run.job.result.failed == job.result.failed + (if run.action is Stop {
                1int
            } else {
                0int
            })
        }),
    decreases lines.len(),
{
    if lines.len() > 0 {
        at_most_one_row_fails(job, lines.drop_last(), source, ledger, replies);
        lemma_run_in_order(job, lines.drop_last(), source, ledger, replies);
        let before = import_run(job, lines.drop_last(), source, ledger, replies);
        if before.action is NextLine {
            let reply = replies(lines.len() - 1);
            every_row_counts_once(before.job, lines.last(), source, before.ledger, reply);
            first_bad_row_stops(before.job, lines.last(), source, before.ledger, reply);
        }
    }
}

/// Importing again repeats nothing: a line that an import has done is not sent a
/// second time by any import that starts from the ledger which the first left,
/// or from a larger one. It is skipped there, whatever the options, the other
/// lines and the replies are.
pub proof fn done_line_is_never_sent_again(
    job: ImportJob,
    lines: Seq<Seq<char>>,
    source: Seq<char>,
    ledger: Ledger,
    replies: spec_fn(int) -> Reply,
    k: int,
    later_job: ImportJob,
    later_ledger: Ledger,
    later_reply: Reply,
)
    requires
        is_idle(job),
        job.lines + lines.len() < usize::MAX,
        job.result.processed + lines.len() < usize::MAX,
        0 <= k < lines.len(),
        done_at(job, lines, source, ledger, replies, k),
        import_run(job, lines, source, ledger, replies).ledger.subset_of(later_ledger),
        is_idle(later_job),
        has_room(later_job),
    ensures
        ({
            let again = line_run(later_job, lines[k], source, later_ledger, later_reply);
            &&& again.sent is None
            &&& again.ledger == later_ledger
            &&& again.action is NextLine
            &&& again.job.result.skipped_existing == later_job.result.skipped_existing + 1
            &&& again.job.result.imported == later_job.result.imported
            &&& again.job.result.failed == later_job.result.failed
        }),
{
    let before = import_run(job, lines.take(k), source, ledger, replies);
    let upto = lines.take(k + 1);
    assert(upto.drop_last() =~= lines.take(k));
    assert(upto.last() == lines[k]);
    lemma_run_in_order(job, lines.take(k), source, ledger, replies);
    done_row_is_known(before.job, lines[k], source, before.ledger, replies(k));
    lemma_ledger_only_grows(job, lines, source, ledger, replies, k + 1);
    let after = import_run(job, upto, source, ledger, replies);
    lemma_knows_more(after.ledger, later_ledger, source, lines[k]);
    known_row_is_skipped(later_job, lines[k], source, later_ledger, later_reply);
}

/// The first lines of two imports of one file, the second from the ledger that
/// the first left: what the first has done the second skips, if it comes to it.
proof fn lemma_rerun(
    job: ImportJob,
    lines: Seq<Seq<char>>,
    source: Seq<char>,
    ledger: Ledger,
    replies: spec_fn(int) -> Reply,
    later_job: ImportJob,
    later_replies: spec_fn(int) -> Reply,
    n: int,
)
    requires
        0 <= n <= lines.len() < usize::MAX,
        job == started(job.result.total, job.options),
        later_job == started(later_job.result.total, later_job.options),
    ensures
        ({
            let left = import_run(job, lines, source, ledger, replies).ledger;
            let first = import_run(job, lines.take(n), source, ledger, replies);
            let second = import_run(later_job, lines.take(n), source, left, later_replies);
            &&& left.subset_of(second.ledger)
            &&& second.job.result.imported + second.job.result.failed + done(first.job)
                <= row_count(lines.take(n))
            &&& second.action is NextLine ==> second.job.result.skipped_existing >= done(first.job)
        }),
    decreases n,
{
    let left = import_run(job, lines, source, ledger, replies).ledger;
    if n > 0 {
        let k = n - 1;
        lemma_rerun(job, lines, source, ledger, replies, later_job, later_replies, k);
        let upto = lines.take(n);
        assert(upto.drop_last() =~= lines.take(k));
        assert(upto.last() == lines[k]);
        let first = import_run(job, lines.take(k), source, ledger, replies);
        let second = import_run(later_job, lines.take(k), source, left, later_replies);
        lemma_run_in_order(job, lines.take(k), source, ledger, replies);
        lemma_run_in_order(later_job, lines.take(k), source, left, later_replies);
        if first.action is NextLine {
            every_row_counts_once(first.job, lines[k], source, first.ledger, replies(k));
        }
        if second.action is NextLine {
            every_row_counts_once(second.job, lines[k], source, second.ledger, later_replies(k));
            ledger_only_grows(second.job, lines[k], source, second.ledger, later_replies(k));
            if done_at(job, lines, source, ledger, replies, k) {
                done_line_is_never_sent_again(
                    job,
                    lines,
                    source,
                    ledger,
                    replies,
                    k,
                    second.job,
                    second.ledger,
                    later_replies(k),
                );
            }
        }
    }
}

/// An import that goes on at the end of some lines went on all the way.
proof fn lemma_still_running(
    job: ImportJob,
    lines: Seq<Seq<char>>,
    source: Seq<char>,
    ledger: Ledger,
    replies: spec_fn(int) -> Reply,
    n: int,
)
    requires
        0 <= n <= lines.len(),
        import_run(job, lines, source, ledger, replies).action is NextLine,
    ensures
        import_run(job, lines.take(n), source, ledger, replies).action is NextLine,
    decreases lines.len(),
{
    if n == lines.len() {
        assert(lines.take(n) =~= lines);
    } else {
        assert(lines.drop_last().take(n) =~= lines.take(n));
        lemma_still_running(job, lines.drop_last(), source, ledger, replies, n);
    }
}

/// The first lines of two imports of one file, of which the first comes to the
/// end and fails at no row: the second sends nothing.
proof fn lemma_rerun_of_success(
    job: ImportJob,
    lines: Seq<Seq<char>>,
    source: Seq<char>,
    ledger: Ledger,
    replies: spec_fn(int) -> Reply,
    later_job: ImportJob,
    later_replies: spec_fn(int) -> Reply,
    n: int,
)
    requires
        0 <= n <= lines.len() < usize::MAX,
        job == started(job.result.total, job.options),
        later_job == started(later_job.result.total, later_job.options),
        import_run(job, lines, source, ledger, replies).action is NextLine,
        import_run(job, lines, source, ledger, replies).job.result.failed == 0,
    ensures
        ({
            let left = import_run(job, lines, source, ledger, replies).ledger;
            let second = import_run(later_job, lines.take(n), source, left, later_replies);
            &&& second.action is NextLine
            &&& texts_sent(later_job, lines.take(n), source, left, later_replies) == Seq::<
                Seq<char>,
            >::empty()
            &&& second.ledger == left
            &&& second.job.result.imported == 0
            &&& second.job.result.failed == 0
        }),
    decreases n,
{
    let left = import_run(job, lines, source, ledger, replies).ledger;
    if n > 0 {
        let k = n - 1;
        lemma_rerun_of_success(job, lines, source, ledger, replies, later_job, later_replies, k);
        let upto = lines.take(n);
        assert(upto.drop_last() =~= lines.take(k));
        assert(upto.last() == lines[k]);
        let first = import_run(job, lines.take(k), source, ledger, replies);
        let second = import_run(later_job, lines.take(k), source, left, later_replies);
        lemma_still_running(job, lines, source, ledger, replies, k);
        lemma_still_running(job, lines, source, ledger, replies, n);
        lemma_failures_only_grow(job, lines, source, ledger, replies, n);
        lemma_run_in_order(job, lines.take(k), source, ledger, replies);
        lemma_run_in_order(later_job, lines.take(k), source, left, later_replies);
        every_row_counts_once(first.job, lines[k], source, first.ledger, replies(k));
        if is_row(lines[k]) {
            assert(done_at(job, lines, source, ledger, replies, k));
            done_line_is_never_sent_again(
                job,
                lines,
                source,
                ledger,
                replies,
                k,
                second.job,
                second.ledger,
                later_replies(k),
            );
        }
    }
}

/// The number of failed rows never falls.
proof fn lemma_failures_only_grow(
    job: ImportJob,
    lines: Seq<Seq<char>>,
    source: Seq<char>,
    ledger: Ledger,
    replies: spec_fn(int) -> Reply,
    k: int,
)
    requires
        0 <= k <= lines.len(),
        is_idle(job),
        job.lines + lines.len() < usize::MAX,
        job.result.processed + lines.len() < usize::MAX,
    ensures
        import_run(job, lines.take(k), source, ledger, replies).job.result.failed <= import_run(
            job,
            lines,
            source,
            ledger,
            replies,
        ).job.result.failed,
    decreases lines.len(),
{
    if k == lines.len() {
        assert(lines.take(k) =~= lines);
    } else {
        let before = import_run(job, lines.drop_last(), source, ledger, replies);
        assert(lines.drop_last().take(k) =~= lines.take(k));
        lemma_failures_only_grow(job, lines.drop_last(), source, ledger, replies, k);
        lemma_run_in_order(job, lines.drop_last(), source, ledger, replies);
        if before.action is NextLine {
            every_row_counts_once(
                before.job,
                lines.last(),
                source,
                before.ledger,
                replies(lines.len() - 1),
            );
        }
    }
}

/// Importing a file a second time imports nothing that was done the first time,
/// wherever either of the two imports ends: it imports, or fails at, no more rows
/// than were not done. If the second one comes to the end it has skipped as many
/// rows as were done; if the first one did, no more rows are left than failed.
pub proof fn rerun_imports_only_what_failed(
    job: ImportJob,
    lines: Seq<Seq<char>>,
    source: Seq<char>,
    ledger: Ledger,
    replies: spec_fn(int) -> Reply,
    later_job: ImportJob,
    later_replies: spec_fn(int) -> Reply,
)
    requires
        lines.len() < usize::MAX,
        job == started(job.result.total, job.options),
        later_job == started(later_job.result.total, later_job.options),
    ensures
        ({
            let first = import_run(job, lines, source, ledger, replies);
            let second = import_run(later_job, lines, source, first.ledger, later_replies);
            &&& second.job.result.imported + second.job.result.failed <= row_count(lines) - done(
                first.job,
            )
            &&& second.action is NextLine ==> second.job.result.processed == row_count(lines)
                && second.job.result.skipped_existing >= done(first.job)
            &&& first.action is NextLine ==> second.job.result.imported
                + second.job.result.failed <= first.job.result.failed
        }),
{
    let first = import_run(job, lines, source, ledger, replies);
    lemma_rerun(
        job,
        lines,
        source,
        ledger,
        replies,
        later_job,
        later_replies,
        lines.len() as int,
    );
    assert(lines.take(lines.len() as int) =~= lines);
    every_row_of_a_file_counts_once(job, lines, source, ledger, replies);
    every_row_of_a_file_counts_once(later_job, lines, source, first.ledger, later_replies);
}

/// Importing a file again of which no row failed sends nothing: the second import
/// comes to the end, whatever its options and whatever the service would reply,
/// skips every row, and leaves the ledger as it is.
pub proof fn rerun_of_success_sends_nothing(
    job: ImportJob,
    lines: Seq<Seq<char>>,
    source: Seq<char>,
    ledger: Ledger,
    replies: spec_fn(int) -> Reply,
    later_job: ImportJob,
    later_replies: spec_fn(int) -> Reply,
)
    requires
        lines.len() < usize::MAX,
        job == started(job.result.total, job.options),
        later_job == started(later_job.result.total, later_job.options),
        import_run(job, lines, source, ledger, replies).action is NextLine,
        import_run(job, lines, source, ledger, replies).job.result.failed == 0,
    ensures
        ({
            let left = import_run(job, lines, source, ledger, replies).ledger;
            let second = import_run(later_job, lines, source, left, later_replies);
            &&& second.action is NextLine
            &&& second.ledger == left
            &&& second.job.result.processed == row_count(lines)
            &&& second.job.result.skipped_existing == row_count(lines)
            &&& second.job.result.imported == 0
            &&& second.job.result.failed == 0
            &&& texts_sent(later_job, lines, source, left, later_replies) == Seq::<
                Seq<char>,
            >::empty()
        }),
{
    let left = import_run(job, lines, source, ledger, replies).ledger;
    lemma_rerun_of_success(
        job,
        lines,
        source,
        ledger,
        replies,
        later_job,
        later_replies,
        lines.len() as int,
    );
    assert(lines.take(lines.len() as int) =~= lines);
    every_row_of_a_file_counts_once(later_job, lines, source, left, later_replies);
}

/// Whether no two entries have the same file and hash, and no two have the same
/// identifier.
pub open spec fn entries_apart(ledger: Ledger) -> bool {
    forall|a: Entry, b: Entry|
        #![trigger ledger.contains(a), ledger.contains(b)]
        ledger.contains(a) && ledger.contains(b) && a != b ==> {
            &&& a.source != b.source || a.line_hash != b.line_hash
            &&& a.memory_id is Some ==> a.memory_id != b.memory_id
        }
}

/// An import keeps the entries of the ledger apart.
pub proof fn entries_stay_apart(
    job: ImportJob,
    line: Seq<char>,
    source: Seq<char>,
    ledger: Ledger,
    reply: Reply,
)
    requires
        entries_apart(ledger),
    ensures
        entries_apart(line_run(job, line, source, ledger, reply).ledger),
{
}

/// The rows among some lines, without the white space around them.
pub open spec fn tidied(lines: Seq<Seq<char>>) -> Seq<Seq<char>>
    decreases lines.len(),
{
    if lines.len() == 0 {
        Seq::empty()
    } else if is_row(lines.last()) {
        tidied(lines.drop_last()).push(trimmed(lines.last()))
    } else {
        tidied(lines.drop_last())
    }
}

/// Whether two imports stand at the same point: only the numbers of the lines may
/// differ.
pub open spec fn agree(a: Standing, b: Standing) -> bool {
    &&& a.job.result == b.job.result
    &&& a.job.options == b.job.options
    &&& a.ledger == b.ledger
    &&& a.action is NextLine <==> b.action is NextLine
    &&& a.action is Stop <==> b.action is Stop
    &&& a.action is Abort <==> b.action is Abort
    &&& a.action is Abort ==> a.action->Abort_0 == b.action->Abort_0
}

proof fn lemma_tidied_len(lines: Seq<Seq<char>>)
    ensures
        tidied(lines).len() == row_count(lines),
    decreases lines.len(),
{
    if lines.len() > 0 {
        lemma_tidied_len(lines.drop_last());
    }
}

/// A row fares the same without the white space around it, whatever the number of
/// its line.
proof fn lemma_tidied_row(
    job: ImportJob,
    other: ImportJob,
    line: Seq<char>,
    source: Seq<char>,
    ledger: Ledger,
    reply: Reply,
)
    requires
        is_row(line),
        job.result == other.result,
        job.options == other.options,
    ensures
        agree(
            line_run(job, line, source, ledger, reply),
            line_run(other, trimmed(line), source, ledger, reply),
        ),
        line_run(job, line, source, ledger, reply).sent == line_run(
            other,
            trimmed(line),
            source,
            ledger,
            reply,
        ).sent,
{
    lemma_trimmed_twice(line);
}

/// Blank lines, and white space around rows, change nothing: an import of the
/// lines comes to the same counts, the same ledger and the same end as one of the
/// bare rows, and sends the same texts, if the service replies the same to each
/// row.
pub proof fn white_space_changes_nothing(
    job: ImportJob,
    lines: Seq<Seq<char>>,
    source: Seq<char>,
    ledger: Ledger,
    replies: spec_fn(int) -> Reply,
    row_replies: spec_fn(int) -> Reply,
)
    requires
        forall|k: int|
            #![trigger lines[k]]
            0 <= k < lines.len() && is_row(lines[k]) ==> replies(k) == row_replies(
                row_count(lines.take(k)) as int,
            ),
    ensures
        agree(
            import_run(job, lines, source, ledger, replies),
            import_run(job, tidied(lines), source, ledger, row_replies),
        ),
        texts_sent(job, lines, source, ledger, replies) == texts_sent(
            job,
            tidied(lines),
            source,
            ledger,
            row_replies,
        ),
    decreases lines.len(),
{
    if lines.len() > 0 {
        let earlier = lines.drop_last();
        let k = lines.len() - 1;
        assert forall|j: int|
            #![trigger earlier[j]]
            0 <= j < earlier.len() && is_row(earlier[j]) implies replies(j) == row_replies(
            row_count(earlier.take(j)) as int,
        ) by {
            assert(earlier[j] == lines[j]);
            assert(earlier.take(j) =~= lines.take(j));
        }
        white_space_changes_nothing(job, earlier, source, ledger, replies, row_replies);
        let before = import_run(job, earlier, source, ledger, replies);
        let tidy_before = import_run(job, tidied(earlier), source, ledger, row_replies);
        if is_row(lines.last()) {
            lemma_tidied_len(earlier);
            assert(lines.take(k) =~= earlier);
            assert(lines[k] == lines.last());
            assert(tidied(lines).drop_last() =~= tidied(earlier));
            if before.action is NextLine {
                lemma_tidied_row(
                    before.job,
                    tidy_before.job,
                    lines.last(),
                    source,
                    before.ledger,
                    replies(k),
                );
            }
        }
    }
}

/// A row that can be imported is sent, as the JSON text of its value, exactly if no
/// entry of the ledger has its identifier, and none is for this file and has the
/// hash of all the bytes of its line.
pub proof fn new_row_is_sent(
    job: ImportJob,
    line: Seq<char>,
    value: JsonView,
    source: Seq<char>,
    ledger: Ledger,
    reply: Reply,
)
    requires
        trimmed(line).len() > 0,
        json_decoded(trimmed(line)) is Ok,
        json_decoded(trimmed(line))->Ok_0 == value,
        row_error(value) is None,
    ensures
        ({
            let after = line_run(job, line, source, ledger, reply);
            let hash = hexadecimal(fnv1a(encode_utf8(trimmed(line))) as nat, 16);
            let new = forall|entry: Entry| #[trigger]
                ledger.contains(entry) ==> !(entry.source == source && entry.line_hash == hash)
                    && !(id_of(value) is Some && entry.memory_id == id_of(value));
            &&& new <==> after.sent is Some
            &&& new ==> after.sent->0 == json_compact(value)
        }),
{
    let hash = hexadecimal(fnv1a(encode_utf8(trimmed(line))) as nat, 16);
    let id = id_of(value);
    let new = forall|entry: Entry| #[trigger]
        ledger.contains(entry) ==> !(entry.source == source && entry.line_hash == hash) && !(id
            is Some && entry.memory_id == id);
    if new {
        assert(!has_line(ledger, source, hash));
        assert(id is Some ==> !has_id(ledger, id->0));
    } else {
        let entry = choose|entry: Entry| #[trigger]
            ledger.contains(entry) && ((entry.source == source && entry.line_hash == hash) || (id
                is Some && entry.memory_id == id));
        if entry.source == source && entry.line_hash == hash {
            assert(has_line(ledger, source, hash));
        } else {
            assert(has_id(ledger, id->0));
        }
    }
}

/// A row that the service takes has an entry from then on: for this file, with the
/// hash of all the bytes of its line.
pub proof fn taken_row_has_an_entry(
    job: ImportJob,
    line: Seq<char>,
    source: Seq<char>,
    ledger: Ledger,
    answer: JsonView,
)
    requires
        trimmed(line).len() > 0,
        json_decoded(trimmed(line)) is Ok,
        row_error(json_decoded(trimmed(line))->Ok_0) is None,
        line_run(job, line, source, ledger, Ok(answer)).sent is Some,
    ensures
        exists|entry: Entry| #[trigger]
            line_run(job, line, source, ledger, Ok(answer)).ledger.contains(entry) && entry.source
                == source && entry.line_hash == hexadecimal(
                fnv1a(encode_utf8(trimmed(line))) as nat,
                16,
            ),
{
    let (begun, _) = line_step(job, line, json_decoded(trimmed(line)));
    let row = row_in(begun.lines, trimmed(line), json_decoded(trimmed(line))->Ok_0);
    match reply_step(begun, row, Ok(answer)).1.action {
        ActionView::Record(record) => {
            record_is_entered(begun, record, source, ledger, json_compact(row.value));
            let after = line_run(job, line, source, ledger, Ok(answer)).ledger;
            assert(has_line(after, source, row.line_hash));
        },
        _ => {},
    }
}

} // verus!

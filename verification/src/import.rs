//! Importing memories from a file with one JSON object on each line.
//!
//! An [`ImportJob`] decides; whoever drives it reads the lines, asks and fills
//! the ledger of what was imported, and sends memories to the service. Each
//! decision comes as an [`ImportStep`]: what to print, and what to do next.
use vstd::prelude::*;
use vstd::string::StringExecFns;
use vstd::utf8::encode_utf8;

use crate::codec::{
    decode_json, decoded_of, encode_json, is_text_of, json_compact, json_decoded, survives,
};
use crate::fields::{
    created_id, first_of, id_of, members_are_read_by_name, memory_id,
    memory_id_from_create_response, memory_is_known_by_its_id, names, said, says_something,
    string_field, text_member,
};
use crate::hash::{fnv1a, line_hash, line_hash_tells_hashes_apart, stable_hash_hex};
use crate::json::{member, Json, JsonView};
use crate::progress::{emit_final_progress, final_report, maybe_emit_progress, row_report};
use crate::request::{client_error, conflict, reply_of, FailureView, JsonRequestError};
use crate::text::{decimal, decimal_text, hexadecimal, text_of, trim, trimmed};

verus! {

/// How to import.
#[derive(Clone, Copy, Debug)]
pub struct ImportOptions {
    /// Whether to go on behind a bad row.
    pub skip_bad: bool,
    pub progress_every: Option<usize>,
}

/// What an import did so far.
#[derive(Clone, Copy, Debug, PartialEq, Eq, Structural)]
pub struct ImportResult {
    pub processed: usize,
    pub imported: usize,
    pub skipped_existing: usize,
    pub failed: usize,
    pub total: usize,
}

impl Default for ImportOptions {
    /// Stops at the first bad row, without reports of progress.
    fn default() -> (r: ImportOptions)
        ensures
            r == (ImportOptions { skip_bad: false, progress_every: None }),
    {
        ImportOptions { skip_bad: false, progress_every: None }
    }
}

impl Default for ImportResult {
    /// Nothing done yet.
    fn default() -> (r: ImportResult)
        ensures
            r == nothing_done(0),
    {
        ImportResult { processed: 0, imported: 0, skipped_existing: 0, failed: 0, total: 0 }
    }
}

/// The counts before the first line of a file with so many rows.
pub open spec fn nothing_done(total: usize) -> ImportResult {
    ImportResult { processed: 0, imported: 0, skipped_existing: 0, failed: 0, total }
}

/// What is wrong with a row that is JSON.
#[derive(Clone, Copy, Debug, PartialEq, Eq, Structural)]
pub enum RowError {
    NotAnObject,
    MissingContent,
}

/// The message for a row error.
pub open spec fn row_error_text(error: RowError) -> Seq<char> {
    match error {
        RowError::NotAnObject => "row must be a JSON object"@,
        RowError::MissingContent => "missing required field content"@,
    }
}

impl RowError {
    /// The message for the user.
    pub fn message(&self) -> (r: String)
        ensures
            r@ == row_error_text(*self),
    {
        match self {
            RowError::NotAnObject => "row must be a JSON object".to_owned(),
            RowError::MissingContent => "missing required field content".to_owned(),
        }
    }
}

/// What is wrong with a row that is JSON, if anything: it is no object, or it
/// has no content that is more than white space.
pub open spec fn row_error(value: JsonView) -> Option<RowError> {
    if !(value is Object) {
        Some(RowError::NotAnObject)
    } else if text_member(value, seq!["content"@]) is None {
        Some(RowError::MissingContent)
    } else {
        None
    }
}

/// Whether a row that is JSON can be imported.
pub fn validate_import_row(value: &Json) -> (r: Result<(), RowError>)
    ensures
        (match r {
            Ok(_) => None,
            Err(error) => Some(error),
        }) == row_error(value@),
{
    if !value.is_object() {
        return Err(RowError::NotAnObject);
    }
    let keys = ["content"];
    assert(names(keys@) =~= seq!["content"@]);
    if string_field(value, &keys).is_none() {
        return Err(RowError::MissingContent);
    }
    Ok(())
}

/// Whether a line of the file is a row: a blank line is none.
pub open spec fn is_row(line: Seq<char>) -> bool {
    trimmed(line).len() > 0
}

/// The number of rows among some lines.
pub open spec fn row_count(lines: Seq<Seq<char>>) -> nat
    decreases lines.len(),
{
    if lines.len() == 0 {
        0
    } else if is_row(lines.last()) {
        row_count(lines.drop_last()) + 1
    } else {
        row_count(lines.drop_last())
    }
}

/// The number of rows after one more line.
pub fn count_jsonl_rows(rows: usize, line: &str) -> (r: usize)
    requires
        rows < usize::MAX,
    ensures
        r == rows + (if is_row(line@) {
            1int
        } else {
            0int
        }),
        forall|lines: Seq<Seq<char>>|
            rows == row_count(lines) ==> r == #[trigger] row_count(lines.push(line@)),
{
    proof {
        assert forall|lines: Seq<Seq<char>>| #[trigger]
            row_count(lines.push(line@)) == row_count(lines) + (if is_row(line@) {
                1nat
            } else {
                0nat
            }) by {
            assert(lines.push(line@).drop_last() =~= lines);
        }
    }
    if trim(line).as_str().is_empty() {
        rows
    } else {
        rows + 1
    }
}

/// A row on its way: the number of its line, its text without the white space
/// around it, the hash of that, its value, and the identifier it carries.
#[derive(Debug)]
pub struct ImportRow {
    pub line_number: usize,
    pub text: String,
    pub line_hash: String,
    pub value: Json,
    pub input_id: Option<String>,
}

/// A row on its way as a value of the model.
pub struct ImportRowView {
    pub line_number: usize,
    pub text: Seq<char>,
    pub line_hash: Seq<char>,
    pub value: JsonView,
    pub input_id: Option<Seq<char>>,
}

impl View for ImportRow {
    type V = ImportRowView;

    open spec fn view(&self) -> ImportRowView {
        ImportRowView {
            line_number: self.line_number,
            text: self.text@,
            line_hash: self.line_hash@,
            value: self.value@,
            input_id: text_of(self.input_id),
        }
    }
}

/// Whether a row carries all that a text and its value hold: the text, the hash of
/// all its bytes, the value, and the identifier that this says.
pub open spec fn carries(row: ImportRow, text: Seq<char>, decoded: Result<Json, String>) -> bool {
    &&& row.text@ == text
    &&& row.line_hash@ == hexadecimal(fnv1a(encode_utf8(text)) as nat, 16)
    &&& decoded is Ok
    &&& row.value@ == decoded->Ok_0@
    &&& row.input_id is Some <==> says_something(
        first_of(row.value@, "id"@, "memory_id"@, "memoryId"@),
    )
    &&& row.input_id is Some ==> row.input_id->0@ == said(
        first_of(row.value@, "id"@, "memory_id"@, "memoryId"@),
        Seq::empty(),
    )
}

/// A row that the service has now: to be entered into the ledger under
/// `memory_id`, or under the hash of its line alone. `conflict` is the service's
/// message if it had the memory before.
#[derive(Debug)]
pub struct ImportRecord {
    pub row: ImportRow,
    pub memory_id: Option<String>,
    pub conflict: Option<String>,
}

/// A row for the ledger as a value of the model.
pub struct RecordView {
    pub row: ImportRowView,
    pub memory_id: Option<Seq<char>>,
    pub conflict: Option<Seq<char>>,
}

impl View for ImportRecord {
    type V = RecordView;

    open spec fn view(&self) -> RecordView {
        RecordView {
            row: self.row@,
            memory_id: text_of(self.memory_id),
            conflict: text_of(self.conflict),
        }
    }
}

/// What to do next.
#[derive(Debug)]
pub enum ImportAction {
    /// Read the next line, and end if there is none.
    NextLine,
    /// End, whatever lines are left.
    Stop,
    /// Count the entries of the ledger with the identifier of the row.
    FindId(ImportRow),
    /// Count the entries of the ledger for this file with the hash of the row.
    FindLine(ImportRow),
    /// Send the text to the service.
    Post(ImportRow, String),
    /// Try to enter the row into the ledger. The attempt changes nothing if that
    /// has an entry for this file with the same hash, or one with the same
    /// identifier.
    Record(ImportRecord),
    /// Give up, with the failure and what was being done.
    Abort(JsonRequestError, String),
}

/// What to do next as a value of the model.
pub enum ActionView {
    NextLine,
    Stop,
    FindId(ImportRowView),
    FindLine(ImportRowView),
    Post(ImportRowView, Seq<char>),
    Record(RecordView),
    Abort(FailureView, Seq<char>),
}

impl View for ImportAction {
    type V = ActionView;

    open spec fn view(&self) -> ActionView {
        match *self {
            ImportAction::NextLine => ActionView::NextLine,
            ImportAction::Stop => ActionView::Stop,
            ImportAction::FindId(row) => ActionView::FindId(row@),
            ImportAction::FindLine(row) => ActionView::FindLine(row@),
            ImportAction::Post(row, text) => ActionView::Post(row@, text@),
            ImportAction::Record(record) => ActionView::Record(record@),
            ImportAction::Abort(error, context) => ActionView::Abort(error@, context@),
        }
    }
}

/// A decision: a line for the error output, a line for the output, and what to
/// do next.
#[derive(Debug)]
pub struct ImportStep {
    pub notice: Option<String>,
    pub progress: Option<String>,
    pub action: ImportAction,
}

/// A decision as a value of the model.
pub struct StepView {
    pub notice: Option<Seq<char>>,
    pub progress: Option<Seq<char>>,
    pub action: ActionView,
}

impl View for ImportStep {
    type V = StepView;

    open spec fn view(&self) -> StepView {
        StepView {
            notice: text_of(self.notice),
            progress: text_of(self.progress),
            action: self.action@,
        }
    }
}

/// An import under way: the number of lines that were read, and the counts.
#[derive(Clone, Copy, Debug)]
pub struct ImportJob {
    pub options: ImportOptions,
    pub lines: usize,
    pub result: ImportResult,
}

/// The number of rows whose outcome is known.
pub open spec fn settled(result: ImportResult) -> int {
    result.imported + result.skipped_existing + result.failed
}

/// Whether the outcome of every row so far is known.
pub open spec fn is_idle(job: ImportJob) -> bool {
    settled(job.result) == job.result.processed
}

/// Whether the outcome of one row, the last, is not known yet.
pub open spec fn is_busy(job: ImportJob) -> bool {
    settled(job.result) + 1 == job.result.processed
}

/// Whether there is room to count another line.
pub open spec fn has_room(job: ImportJob) -> bool {
    job.lines < usize::MAX && job.result.processed < usize::MAX
}

/// The line to print after a row.
pub open spec fn report(job: ImportJob) -> Option<Seq<char>> {
    row_report(job.result.processed, Some(job.result.total), job.options.progress_every)
}

/// A step that only asks for something.
pub open spec fn ask(action: ActionView) -> StepView {
    StepView { notice: None, progress: None, action }
}

/// A row is bad: it counts as failed, the user is told, and unless bad rows are
/// skipped the import ends.
pub open spec fn bad_row(job: ImportJob, line_number: usize, error: Seq<char>) -> (
    ImportJob,
    StepView,
) {
    let after = ImportJob {
        result: ImportResult { failed: (job.result.failed + 1) as usize, ..job.result },
        ..job
    };
    (
        after,
        StepView {
            notice: Some("line "@ + decimal(line_number as nat) + " failed: "@ + error),
            progress: report(after),
            action: if job.options.skip_bad {
                ActionView::NextLine
            } else {
                ActionView::Stop
            },
        },
    )
}

/// A row that was imported before, which is skipped.
pub open spec fn skipped_row(job: ImportJob, notice: Option<Seq<char>>) -> (ImportJob, StepView) {
    let after = ImportJob {
        result: ImportResult {
            skipped_existing: (job.result.skipped_existing + 1) as usize,
            ..job.result
        },
        ..job
    };
    (after, StepView { notice, progress: report(after), action: ActionView::NextLine })
}

/// A row that was imported now.
pub open spec fn imported_row(job: ImportJob) -> (ImportJob, StepView) {
    let after = ImportJob {
        result: ImportResult { imported: (job.result.imported + 1) as usize, ..job.result },
        ..job
    };
    (after, StepView { notice: None, progress: report(after), action: ActionView::NextLine })
}

/// The row that a line holds.
pub open spec fn row_in(line_number: usize, text: Seq<char>, value: JsonView) -> ImportRowView {
    ImportRowView {
        line_number,
        text,
        line_hash: line_hash(text),
        value,
        input_id: id_of(value),
    }
}

/// The step after the text of a row was read as JSON: a row that is not JSON, or
/// that cannot be imported, is bad; otherwise the ledger is asked.
pub open spec fn decoded_step(
    job: ImportJob,
    text: Seq<char>,
    decoded: Result<JsonView, Seq<char>>,
) -> (ImportJob, StepView) {
    match decoded {
        Err(error) => bad_row(job, job.lines, "invalid JSON: "@ + error),
        Ok(value) => match row_error(value) {
            Some(error) => bad_row(job, job.lines, row_error_text(error)),
            None => {
                let row = row_in(job.lines, text, value);
                (
                    job,
                    ask(
                        if row.input_id is Some {
                            ActionView::FindId(row)
                        } else {
                            ActionView::FindLine(row)
                        },
                    ),
                )
            },
        },
    }
}

/// The job with one more line read, and one more row begun if it is one.
pub open spec fn line_begun(job: ImportJob, line: Seq<char>) -> ImportJob {
    ImportJob {
        lines: (job.lines + 1) as usize,
        result: if is_row(line) {
            ImportResult { processed: (job.result.processed + 1) as usize, ..job.result }
        } else {
            job.result
        },
        ..job
    }
}

/// The step after a line was read, given what the JSON reader makes of it without
/// the white space around it: a blank line is passed over.
pub open spec fn line_step(
    job: ImportJob,
    line: Seq<char>,
    decoded: Result<JsonView, Seq<char>>,
) -> (ImportJob, StepView) {
    let begun = line_begun(job, line);
    if is_row(line) {
        decoded_step(begun, trimmed(line), decoded)
    } else {
        (begun, ask(ActionView::NextLine))
    }
}

/// The step after the ledger was asked for the identifier of a row.
pub open spec fn id_step(job: ImportJob, row: ImportRowView, count: i64) -> (ImportJob, StepView) {
    if count > 0 {
        skipped_row(job, None)
    } else {
        (job, ask(ActionView::FindLine(row)))
    }
}

/// The step after the ledger was asked for the hash of a row.
pub open spec fn hash_step(job: ImportJob, row: ImportRowView, count: i64) -> (
    ImportJob,
    StepView,
) {
    if count > 0 {
        skipped_row(job, None)
    } else {
        (job, ask(ActionView::Post(row, json_compact(row.value))))
    }
}

/// The identifier under which a row is entered into the ledger: its own, or else
/// the one that the service gave it.
pub open spec fn entered_id(row: ImportRowView, answer: JsonView) -> Option<Seq<char>> {
    match row.input_id {
        Some(id) => Some(id),
        None => created_id(answer),
    }
}

/// The step after the service was sent a row: what it has, now or before, is
/// entered into the ledger; what it blames on the row makes that a bad row;
/// anything else ends the import.
pub open spec fn reply_step(
    job: ImportJob,
    row: ImportRowView,
    reply: Result<JsonView, FailureView>,
) -> (ImportJob, StepView) {
    match reply {
        Ok(answer) => (
            job,
            ask(
                ActionView::Record(
                    RecordView { row, memory_id: entered_id(row, answer), conflict: None },
                ),
            ),
        ),
        Err(failure) => if conflict(failure) && row.input_id is Some {
            (
                job,
                ask(
                    ActionView::Record(
                        RecordView {
                            row,
                            memory_id: row.input_id,
                            conflict: Some(failure.message),
                        },
                    ),
                ),
            )
        } else if client_error(failure) {
            bad_row(job, row.line_number, failure.message)
        } else {
            (
                job,
                ask(
                    ActionView::Abort(
                        failure,
                        "import line "@ + decimal(row.line_number as nat),
                    ),
                ),
            )
        },
    }
}

/// The step after the attempt to enter a row into the ledger, given how many
/// entries it changed. A row whose identifier the ledger has for another row is
/// entered without it, so that the hash of its line is known.
pub open spec fn recorded_step(job: ImportJob, record: RecordView, changed: usize) -> (
    ImportJob,
    StepView,
) {
    if changed == 0 && record.memory_id is Some {
        (job, ask(ActionView::Record(RecordView { memory_id: None, ..record })))
    } else {
        match record.conflict {
            Some(message) => skipped_row(
                job,
                Some(
                    "line "@ + decimal(record.row.line_number as nat) + " already exists: "@
                        + message,
                ),
            ),
            None => imported_row(job),
        }
    }
}

/// An import before its first line.
pub open spec fn started(total: usize, options: ImportOptions) -> ImportJob {
    ImportJob { options, lines: 0, result: nothing_done(total) }
}

/// Starts to import a file with so many rows, stopping at the first bad row.
pub fn import_jsonl(total: usize) -> (r: ImportJob)
    ensures
        r == started(total, ImportOptions { skip_bad: false, progress_every: None }),
{
    import_jsonl_with_options(total, ImportOptions::default())
}

/// Starts to import a file with so many rows.
pub fn import_jsonl_with_options(total: usize, options: ImportOptions) -> (r: ImportJob)
    ensures
        r == started(total, options),
{
    ImportJob { options, lines: 0, result: ImportResult { total, ..ImportResult::default() } }
}

impl ImportJob {
    /// Whether the next line can be read.
    pub fn can_read(&self) -> (r: bool)
        ensures
            r == (is_idle(*self) && has_room(*self)),
    {
        self.lines < usize::MAX && self.result.processed < usize::MAX && self.open_rows() == Some(0)
    }

    /// Whether a row is on its way.
    pub fn is_waiting(&self) -> (r: bool)
        ensures
            r == is_busy(*self),
    {
        self.open_rows() == Some(1)
    }

    /// The number of rows whose outcome is not known yet.
    fn open_rows(&self) -> (r: Option<usize>)
        ensures
            r is Some <==> settled(self.result) <= self.result.processed,
            r is Some ==> r->0 == self.result.processed - settled(self.result),
    {
        match self.result.processed.checked_sub(self.result.imported) {
            Some(rest) => match rest.checked_sub(self.result.skipped_existing) {
                Some(rest) => rest.checked_sub(self.result.failed),
                None => None,
            },
            None => None,
        }
    }

    fn progress(&self) -> (r: Option<String>)
        ensures
            text_of(r) == report(*self),
    {
        maybe_emit_progress(
            self.result.processed,
            Some(self.result.total),
            self.options.progress_every,
        )
    }

    /// Takes a line of the file.
    pub fn line(&mut self, line: &str) -> (r: ImportStep)
        requires
            is_idle(*old(self)),
            has_room(*old(self)),
        ensures
            (*final(self), r@) == line_step(*old(self), line@, json_decoded(trimmed(line@))),
    {
        let text = trim(line);
        self.lines = self.lines + 1;
        if text.as_str().is_empty() {
            return ImportStep { notice: None, progress: None, action: ImportAction::NextLine };
        }
        self.result.processed = self.result.processed + 1;
        let decoded = decode_json(text.as_str());
        self.decoded(text, decoded)
    }

    /// Takes what the JSON reader made of the text of the row that was begun.
    pub fn decoded(&mut self, text: String, decoded: Result<Json, String>) -> (r: ImportStep)
        requires
            is_busy(*old(self)),
        ensures
            (*final(self), r@) == decoded_step(*old(self), text@, decoded_of(decoded)),
            r.action matches ImportAction::FindId(row) ==> carries(row, text@, decoded)
                && row.line_number == old(self).lines && row.input_id is Some,
            r.action matches ImportAction::FindLine(row) ==> carries(row, text@, decoded)
                && row.line_number == old(self).lines && row.input_id is None,
            decoded is Err ==> final(self).result.failed == old(self).result.failed + 1,
    {
        let value = match decoded {
            Ok(value) => value,
            Err(error) => {
                return self.handle_bad_import_row(
                    self.lines,
                    "invalid JSON: ".to_owned().concat(error.as_str()),
                );
            },
        };
        if let Err(error) = validate_import_row(&value) {
            return self.handle_bad_import_row(self.lines, error.message());
        }
        let input_id = memory_id(&value);
        proof {
            memory_is_known_by_its_id(value@);
        }
        let has_id = input_id.is_some();
        let row = ImportRow {
            line_number: self.lines,
            line_hash: stable_hash_hex(text.as_str()),
            text,
            value,
            input_id,
        };
        ImportStep {
            notice: None,
            progress: None,
            action: if has_id {
                ImportAction::FindId(row)
            } else {
                ImportAction::FindLine(row)
            },
        }
    }

    fn handle_bad_import_row(&mut self, line_number: usize, error: String) -> (r: ImportStep)
        requires
            is_busy(*old(self)),
        ensures
            (*final(self), r@) == bad_row(*old(self), line_number, error@),
    {
        self.result.failed = self.result.failed + 1;
        let notice = "line ".to_owned().concat(decimal_text(line_number as u64).as_str()).concat(
            " failed: ",
        ).concat(error.as_str());
        ImportStep {
            notice: Some(notice),
            progress: self.progress(),
            action: if self.options.skip_bad {
                ImportAction::NextLine
            } else {
                ImportAction::Stop
            },
        }
    }

    fn skip_row(&mut self, notice: Option<String>) -> (r: ImportStep)
        requires
            is_busy(*old(self)),
        ensures
            (*final(self), r@) == skipped_row(*old(self), text_of(notice)),
    {
        self.result.skipped_existing = self.result.skipped_existing + 1;
        ImportStep { notice, progress: self.progress(), action: ImportAction::NextLine }
    }

    /// Takes the number of entries of the ledger with the identifier of the row.
    pub fn id_found(&mut self, row: ImportRow, count: i64) -> (r: ImportStep)
        requires
            is_busy(*old(self)),
        ensures
            (*final(self), r@) == id_step(*old(self), row@, count),
    {
        if count > 0 {
            return self.skip_row(None);
        }
        ImportStep { notice: None, progress: None, action: ImportAction::FindLine(row) }
    }

    /// Takes the number of entries of the ledger for this file with the hash of
    /// the row.
    pub fn line_found(&mut self, row: ImportRow, count: i64) -> (r: ImportStep)
        requires
            is_busy(*old(self)),
        ensures
            (*final(self), r@) == hash_step(*old(self), row@, count),
            r@.action is Post && survives(row@.value) ==> is_text_of(
                r@.action->Post_1,
                row@.value,
            ),
    {
        if count > 0 {
            return self.skip_row(None);
        }
        let text = encode_json(&row.value);
        ImportStep { notice: None, progress: None, action: ImportAction::Post(row, text) }
    }

    /// Takes the service's reply to a row.
    pub fn replied(&mut self, row: ImportRow, reply: Result<Json, JsonRequestError>) -> (r:
        ImportStep)
        requires
            is_busy(*old(self)),
        ensures
            (*final(self), r@) == reply_step(*old(self), row@, reply_of(reply)),
    {
        match reply {
            Ok(answer) => {
                let memory_id = match &row.input_id {
                    Some(id) => Some(id.clone()),
                    None => memory_id_from_create_response(&answer),
                };
                ImportStep {
                    notice: None,
                    progress: None,
                    action: ImportAction::Record(ImportRecord { row, memory_id, conflict: None }),
                }
            },
            Err(error) => {
                if error.is_conflict() && row.input_id.is_some() {
                    let memory_id = match &row.input_id {
                        Some(id) => Some(id.clone()),
                        None => None,
                    };
                    ImportStep {
                        notice: None,
                        progress: None,
                        action: ImportAction::Record(
                            ImportRecord { row, memory_id, conflict: Some(error.message) },
                        ),
                    }
                } else if error.is_client_error() {
                    self.handle_bad_import_row(row.line_number, error.message)
                } else {
                    let context = "import line ".to_owned().concat(
                        decimal_text(row.line_number as u64).as_str(),
                    );
                    ImportStep {
                        notice: None,
                        progress: None,
                        action: ImportAction::Abort(error, context),
                    }
                }
            },
        }
    }

    /// Takes the number of entries that the attempt to enter a row into the ledger
    /// changed.
    pub fn recorded(&mut self, record: ImportRecord, changed: usize) -> (r: ImportStep)
        requires
            is_busy(*old(self)),
        ensures
            (*final(self), r@) == recorded_step(*old(self), record@, changed),
    {
        if changed == 0 && record.memory_id.is_some() {
            let record = ImportRecord {
                row: record.row,
                memory_id: None,
                conflict: record.conflict,
            };
            return ImportStep {
                notice: None,
                progress: None,
                action: ImportAction::Record(record),
            };
        }
        match record.conflict {
            Some(message) => {
                let notice = "line ".to_owned().concat(
                    decimal_text(record.row.line_number as u64).as_str(),
                ).concat(" already exists: ").concat(message.as_str());
                self.skip_row(Some(notice))
            },
            None => {
                self.result.imported = self.result.imported + 1;
                ImportStep {
                    notice: None,
                    progress: self.progress(),
                    action: ImportAction::NextLine,
                }
            },
        }
    }

    /// The outcome for the user.
    pub fn summary(&self) -> (r: String)
        ensures
            r@ == "success="@ + decimal(self.result.imported as nat) + " fail="@ + decimal(
                self.result.failed as nat,
            ),
    {
        "success=".to_owned().concat(decimal_text(self.result.imported as u64).as_str()).concat(
            " fail=",
        ).concat(decimal_text(self.result.failed as u64).as_str())
    }

    /// The line to print at the end, if any.
    pub fn finish(&self) -> (r: Option<String>)
        ensures
            text_of(r) == final_report(
                self.result.processed,
                Some(self.result.total),
                self.options.progress_every,
            ),
    {
        emit_final_progress(
            self.result.processed,
            Some(self.result.total),
            self.options.progress_every,
        )
    }
}

/// Every failed row is reported to the user, whether the file or the service is
/// at fault.
pub proof fn failed_rows_are_reported(
    job: ImportJob,
    line: Seq<char>,
    decoded: Result<JsonView, Seq<char>>,
    row: ImportRowView,
    reply: Result<JsonView, FailureView>,
)
    ensures
        line_step(job, line, decoded).0.result.failed != job.result.failed ==> line_step(
            job,
            line,
            decoded,
        ).1.notice is Some,
        reply_step(job, row, reply).0.result.failed != job.result.failed ==> reply_step(
            job,
            row,
            reply,
        ).1.notice is Some,
{
}

/// With bad rows skipped, a row that is not JSON, a row that cannot be imported,
/// and a row that the service blames all end the same way: the import goes on.
pub proof fn bad_rows_are_skipped(
    job: ImportJob,
    line: Seq<char>,
    decoded: Result<JsonView, Seq<char>>,
    row: ImportRowView,
    failure: FailureView,
)
    requires
        job.options.skip_bad,
    ensures
        is_row(line) && (decoded is Err || row_error(decoded->Ok_0) is Some) ==> line_step(
            job,
            line,
            decoded,
        ).1.action is NextLine,
        client_error(failure) && !(conflict(failure) && row.input_id is Some) ==> reply_step(
            job,
            row,
            Err(failure),
        ).1.action is NextLine,
{
}

/// A row that can be imported is looked up with all it has: the whole of its line
/// without the white space around it, the 64-bit FNV-1a hash of all the UTF-8 bytes
/// of that in sixteen hexadecimal digits, its value, the number of its line, and
/// the identifier that it says, under which it is looked up first. It is counted
/// as processed and as nothing else yet.
pub proof fn row_carries_its_whole_line(job: ImportJob, line: Seq<char>, value: JsonView)
    requires
        trimmed(line).len() > 0,
        row_error(value) is None,
        has_room(job),
    ensures
        ({
            let (after, step) = line_step(job, line, Ok(value));
            let field = first_of(value, "id"@, "memory_id"@, "memoryId"@);
            let row = match step.action {
                ActionView::FindId(row) => row,
                ActionView::FindLine(row) => row,
                _ => arbitrary(),
            };
            &&& step.action is FindId <==> says_something(field)
            &&& step.action is FindLine <==> !says_something(field)
            &&& row.text == trimmed(line)
            &&& row.line_hash == hexadecimal(fnv1a(encode_utf8(trimmed(line))) as nat, 16)
            &&& row.value == value
            &&& row.line_number == job.lines + 1
            &&& row.input_id is Some <==> says_something(field)
            &&& row.input_id is Some ==> row.input_id->0 == said(field, Seq::empty())
            &&& step.notice is None && step.progress is None
            &&& after.lines == job.lines + 1
            &&& after.result.processed == job.result.processed + 1
            &&& after.result.imported == job.result.imported
            &&& after.result.skipped_existing == job.result.skipped_existing
            &&& after.result.failed == job.result.failed
            &&& after.result.total == job.result.total
            &&& after.options == job.options
        }),
{
    memory_is_known_by_its_id(value);
}

/// Two rows are looked up under the same hash only if the hashes of all the bytes of
/// their lines are the same.
pub proof fn rows_are_told_apart(
    job: ImportJob,
    line: Seq<char>,
    value: JsonView,
    other_job: ImportJob,
    other: Seq<char>,
    other_value: JsonView,
)
    requires
        trimmed(line).len() > 0,
        trimmed(other).len() > 0,
        row_error(value) is None,
        row_error(other_value) is None,
    ensures
        ({
            let hash = |action: ActionView|
                match action {
                    ActionView::FindId(row) => row.line_hash,
                    ActionView::FindLine(row) => row.line_hash,
                    _ => Seq::empty(),
                };
            hash(line_step(job, line, Ok(value)).1.action) == hash(
                line_step(other_job, other, Ok(other_value)).1.action,
            ) <==> fnv1a(encode_utf8(trimmed(line))) == fnv1a(encode_utf8(trimmed(other)))
        }),
{
    line_hash_tells_hashes_apart(trimmed(line), trimmed(other));
}

/// A row can be imported exactly if it is an object that says something under
/// `content`.
pub proof fn content_is_required(value: JsonView)
    ensures
        !(value is Object) <==> row_error(value) == Some(RowError::NotAnObject),
        value is Object && !says_something(member(value, "content"@)) <==> row_error(value) == Some(
            RowError::MissingContent,
        ),
        value is Object && says_something(member(value, "content"@)) <==> row_error(value) is None,
        value is Object ==> (member(value, "content"@) matches Some(JsonView::Text(s)) ==> (
        row_error(value) is None <==> trimmed(s).len() > 0)),
{
    members_are_read_by_name(value, "content"@, "content"@, "content"@, Seq::empty());
}

/// What a job does next and counts after a bad row.
pub open spec fn fails_with(
    before: ImportJob,
    after: ImportJob,
    step: StepView,
    line_number: int,
    error: Seq<char>,
) -> bool {
    &&& step.notice == Some("line "@ + decimal(line_number as nat) + " failed: "@ + error)
    &&& step.action is NextLine <==> before.options.skip_bad
    &&& step.action is Stop <==> !before.options.skip_bad
    &&& after.options == before.options
    &&& after.result.failed == before.result.failed + 1
    &&& after.result.imported == before.result.imported
    &&& after.result.skipped_existing == before.result.skipped_existing
    &&& after.result.total == before.result.total
    &&& step.progress == row_report(
        after.result.processed,
        Some(after.result.total),
        before.options.progress_every,
    )
}

/// A line that is no JSON, no object or without content fails with a message that
/// says so, under the number of the line; a blank line is only counted as a line.
pub proof fn bad_lines_fail_with_a_reason(
    job: ImportJob,
    line: Seq<char>,
    decoded: Result<JsonView, Seq<char>>,
)
    requires
        is_idle(job),
        has_room(job),
    ensures
        ({
            let (after, step) = line_step(job, line, decoded);
            let row = trimmed(line).len() > 0;
            let number = job.lines + 1;
            &&& after.lines == number
            &&& after.result.processed == job.result.processed + (if row {
                1int
            } else {
                0int
            })
            &&& !row ==> after.result == job.result && step.action is NextLine && step.notice is None
                && step.progress is None
            &&& row && decoded is Err ==> fails_with(
                job,
                after,
                step,
                number,
                "invalid JSON: "@ + decoded->Err_0,
            )
            &&& row && decoded is Ok && !(decoded->Ok_0 is Object) ==> fails_with(
                job,
                after,
                step,
                number,
                "row must be a JSON object"@,
            )
            &&& row && decoded is Ok && decoded->Ok_0 is Object && !says_something(
                member(decoded->Ok_0, "content"@),
            ) ==> fails_with(job, after, step, number, "missing required field content"@)
        }),
{
    if decoded is Ok {
        content_is_required(decoded->Ok_0);
    }
}

/// Whether what a job does not count stays as it is, and the progress that is due is
/// reported.
pub open spec fn carried_on(before: ImportJob, after: ImportJob, step: StepView) -> bool {
    &&& after.lines == before.lines
    &&& after.options == before.options
    &&& after.result.processed == before.result.processed
    &&& after.result.total == before.result.total
    &&& step.progress == row_report(
        before.result.processed,
        Some(before.result.total),
        before.options.progress_every,
    )
}

/// A row that the ledger has is skipped, by its identifier or by its hash; one that
/// it has neither way is sent, as the JSON text of its value.
pub proof fn unknown_rows_are_sent(job: ImportJob, row: ImportRowView, count: i64)
    requires
        is_busy(job),
    ensures
        ({
            let (after, step) = id_step(job, row, count);
            &&& count > 0 ==> step.action is NextLine && after.result.skipped_existing
                == job.result.skipped_existing + 1 && after.result.imported == job.result.imported
                && after.result.failed == job.result.failed && carried_on(job, after, step)
            &&& count <= 0 ==> step.action == ActionView::FindLine(row) && after == job
                && step.progress is None
            &&& step.notice is None
        }),
        ({
            let (after, step) = hash_step(job, row, count);
            &&& count > 0 ==> step.action is NextLine && after.result.skipped_existing
                == job.result.skipped_existing + 1 && after.result.imported == job.result.imported
                && after.result.failed == job.result.failed && carried_on(job, after, step)
            &&& count <= 0 ==> step.action == ActionView::Post(row, json_compact(row.value))
                && after == job && step.progress is None
            &&& step.notice is None
        }),
{
}

/// What becomes of a reply. A row that the service took is entered into the ledger
/// under its own identifier, or else under the one that the answer gives. A
/// conflict over a row with an identifier enters it under that, with the message.
/// Any other status from 400 to 499 makes it a bad row, with the message; anything
/// else ends the import with the failure.
pub proof fn replies_are_heeded(
    job: ImportJob,
    row: ImportRowView,
    reply: Result<JsonView, FailureView>,
)
    requires
        is_busy(job),
    ensures
        ({
            let (after, step) = reply_step(job, row, reply);
            let status = reply->Err_0.status;
            let taken = reply is Err && status == Some(409u16) && row.input_id is Some;
            let blamed = reply is Err && status is Some && 400 <= status->0 <= 499 && !taken;
            &&& reply is Ok ==> after == job && step.action is Record && ({
                let record = step.action->Record_0;
                &&& record.row == row
                &&& record.conflict is None
                &&& row.input_id is Some ==> record.memory_id == row.input_id
                &&& row.input_id is None ==> record.memory_id == created_id(reply->Ok_0)
            })
            &&& taken ==> after == job && step.action is Record && ({
                let record = step.action->Record_0;
                &&& record.row == row
                &&& record.memory_id == row.input_id
                &&& record.conflict == Some(reply->Err_0.message)
            })
            &&& blamed ==> fails_with(
                job,
                after,
                step,
                row.line_number as int,
                reply->Err_0.message,
            )
            &&& reply is Err && !taken && !blamed ==> after == job && step.action is Abort
                && step.action->Abort_0 == reply->Err_0 && step.action->Abort_1 == "import line "@
                + decimal(row.line_number as nat)
        }),
{
}

/// A row that was entered counts: as skipped if the service had it before, with a
/// notice that says so, and as imported otherwise. One that could not be entered
/// under its identifier is entered without.
pub proof fn entered_rows_count(job: ImportJob, record: RecordView, changed: usize)
    requires
        is_busy(job),
    ensures
        ({
            let (after, step) = recorded_step(job, record, changed);
            let again = changed == 0 && record.memory_id is Some;
            &&& again ==> after == job && step.action is Record && step.action->Record_0.row
                == record.row && step.action->Record_0.memory_id is None
                && step.action->Record_0.conflict == record.conflict
            &&& !again ==> step.action is NextLine && after.result.failed == job.result.failed
                && carried_on(job, after, step)
            &&& !again && record.conflict is None ==> after.result.imported == job.result.imported
                + 1 && after.result.skipped_existing == job.result.skipped_existing
                && step.notice is None
            &&& !again && record.conflict is Some ==> after.result.skipped_existing
                == job.result.skipped_existing + 1 && after.result.imported == job.result.imported
                && step.notice == Some(
                "line "@ + decimal(record.row.line_number as nat) + " already exists: "@
                    + record.conflict->0,
            )
        }),
{
}

/// Of every line that is more than white space there is one row.
pub proof fn rows_are_lines_with_text(lines: Seq<Seq<char>>, line: Seq<char>, total: usize)
    ensures
        row_count(Seq::empty()) == 0,
        trimmed(line).len() > 0 ==> row_count(lines.push(line)) == row_count(lines) + 1,
        trimmed(line).len() == 0 ==> row_count(lines.push(line)) == row_count(lines),
        is_row(line) <==> trimmed(line).len() > 0,
        nothing_done(total).total == total,
        nothing_done(total).processed == 0 && nothing_done(total).imported == 0 && nothing_done(
            total,
        ).skipped_existing == 0 && nothing_done(total).failed == 0,
{
    assert(lines.push(line).drop_last() =~= lines);
}

/// Rows, records, actions and steps in the model are what they are, in full.
pub proof fn steps_are_kept(row: ImportRow, record: ImportRecord, step: ImportStep)
    ensures
        row@.line_number == row.line_number,
        row@.text == row.text@,
        row@.line_hash == row.line_hash@,
        row@.value == row.value@,
        row@.input_id is Some <==> row.input_id is Some,
        row.input_id is Some ==> row@.input_id->0 == row.input_id->0@,
        record@.row == record.row@,
        record@.memory_id is Some <==> record.memory_id is Some,
        record.memory_id is Some ==> record@.memory_id->0 == record.memory_id->0@,
        record@.conflict is Some <==> record.conflict is Some,
        record.conflict is Some ==> record@.conflict->0 == record.conflict->0@,
        step@.notice is Some <==> step.notice is Some,
        step.notice is Some ==> step@.notice->0 == step.notice->0@,
        step@.progress is Some <==> step.progress is Some,
        step.progress is Some ==> step@.progress->0 == step.progress->0@,
        step@.action is NextLine <==> step.action is NextLine,
        step@.action is Stop <==> step.action is Stop,
        step.action matches ImportAction::FindId(r) ==> step@.action == ActionView::FindId(r@),
        step.action matches ImportAction::FindLine(r) ==> step@.action == ActionView::FindLine(r@),
        step.action matches ImportAction::Post(r, text) ==> step@.action == ActionView::Post(
            r@,
            text@,
        ),
        step.action matches ImportAction::Record(r) ==> step@.action == ActionView::Record(r@),
        step.action matches ImportAction::Abort(e, c) ==> step@.action == ActionView::Abort(e@, c@),
{
}

/// An import starts before the first line with the options it was given and the
/// total it was told. It may read a line whenever every row it began has one
/// outcome and the counters have room for one more; it waits whenever exactly one
/// row has none yet.
pub proof fn import_goes_line_by_line(job: ImportJob, total: usize, options: ImportOptions)
    ensures
        started(total, options).options == options,
        started(total, options).lines == 0,
        started(total, options).result.total == total,
        started(total, options).result.processed == 0,
        is_idle(started(total, options)) && has_room(started(total, options)),
        has_room(job) <==> job.lines < usize::MAX && job.result.processed < usize::MAX,
        is_idle(job) <==> job.result.processed == job.result.imported + job.result.skipped_existing
            + job.result.failed,
        is_busy(job) <==> job.result.processed == job.result.imported + job.result.skipped_existing
            + job.result.failed + 1,
{
}

} // verus!

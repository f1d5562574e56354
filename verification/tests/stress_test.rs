use mnemosctl::codec::{decode_json, encode_json};
use mnemosctl::config::Config;
use mnemosctl::fields::{memory_items, string_field};
use mnemosctl::import::{
    count_jsonl_rows, import_jsonl, import_jsonl_with_options, validate_import_row, ImportAction,
    ImportJob, ImportOptions, ImportResult, ImportRow, RowError,
};
use mnemosctl::json::{Json, JsonNumber};
use mnemosctl::request::{post_memory, read_answer, send_failure, Body, JsonRequestError};
use mnemosctl::sync::{
    after_insert, memory_row, sync_from_host, sync_from_host_with_options, MemoryRow, SyncJob,
    SyncOptions, UpsertStep,
};
use rusqlite::Connection;
use std::collections::BTreeSet;
use std::time::{Duration, Instant};

const SYNC_STRESS_HOST: &str = "http://192.168.207.67:5002";

fn text(value: &str) -> Json {
    Json::Text(value.to_string())
}

fn object(members: Vec<(&str, Json)>) -> Json {
    Json::Object(members.into_iter().map(|(name, value)| (name.to_string(), value)).collect())
}

fn open_db() -> Connection {
    let conn = Connection::open_in_memory().unwrap();
    conn.execute_batch(
        "
        CREATE TABLE memories (
            id TEXT PRIMARY KEY,
            content TEXT NOT NULL,
            category TEXT NOT NULL,
            created_at TEXT NOT NULL,
            raw_json TEXT NOT NULL
        );
        CREATE TABLE imported_memories (
            source TEXT NOT NULL,
            source_line_hash TEXT NOT NULL,
            memory_id TEXT,
            imported_at TEXT NOT NULL DEFAULT CURRENT_TIMESTAMP,
            raw_json TEXT NOT NULL,
            PRIMARY KEY (source, source_line_hash)
        );
        CREATE UNIQUE INDEX imported_memories_memory_id_idx
            ON imported_memories(memory_id)
            WHERE memory_id IS NOT NULL;
        ",
    )
    .unwrap();
    conn
}

fn count(conn: &Connection, query: &str) -> i64 {
    conn.query_row(query, [], |row| row.get(0)).unwrap()
}

/// A host with so many memories, the contents of which name a version.
struct Host {
    memories: usize,
    version: usize,
    says_total: bool,
    nameless: Option<usize>,
}

impl Host {
    /// The answer to the request for the next page.
    fn page(&self, job: &SyncJob) -> Json {
        let request = job.next_request();
        assert_eq!(request.query[0], ("limit".to_string(), 100));
        assert_eq!(request.query[1].0, "offset");
        let from = request.query[1].1;
        let to = self.memories.min(from + request.query[0].1);
        let items = (from..to)
            .map(|index| {
                let id = match self.nameless {
                    Some(nameless) if nameless == index => Json::Null,
                    _ => text(&format!("memory-{index}")),
                };
                object(vec![
                    ("id", id),
                    ("content", text(&format!("content {index} version {}", self.version))),
                ])
            })
            .collect();
        let mut members = vec![("memories", Json::Array(items))];
        if self.says_total {
            members.push(("total", Json::Number(JsonNumber::Natural(self.memories as u64))));
        }
        object(members)
    }
}

fn upsert(conn: &Connection, row: &MemoryRow) -> bool {
    let changed = conn
        .execute(
            "INSERT INTO memories (id, content, category, created_at, raw_json)
             VALUES (?1, ?2, ?3, ?4, ?5) ON CONFLICT(id) DO NOTHING",
            (&row.id, &row.content, &row.category, &row.created_at, &row.raw_json),
        )
        .unwrap();
    match after_insert(changed) {
        UpsertStep::Inserted => true,
        UpsertStep::Update => {
            conn.execute(
                "UPDATE memories SET content = ?2, category = ?3, created_at = ?4, raw_json = ?5
                 WHERE id = ?1",
                (&row.id, &row.content, &row.category, &row.created_at, &row.raw_json),
            )
            .unwrap();
            false
        }
    }
}

/// Runs a job to its end: the lines that it prints.
fn sync(conn: &Connection, job: &mut SyncJob, host: &Host) -> Vec<String> {
    let mut lines = Vec::new();
    loop {
        let page = job.page(&host.page(job));
        for row in &page.rows {
            let inserted = upsert(conn, row);
            lines.extend(job.row_stored(inserted));
        }
        if let Some(failure) = page.failure {
            lines.push(failure.message());
            return lines;
        }
        if !job.page_end(page.count) {
            break;
        }
    }
    let (last, summary) = job.finish();
    lines.extend(last);
    lines.push(summary);
    lines
}

#[test]
fn sync_from_host_is_fast_and_idempotent_at_corpus_scale() {
    let conn = open_db();
    let host = Host { memories: 5321, version: 1, says_total: true, nameless: None };

    let started = Instant::now();
    let mut job = sync_from_host("test-key", SYNC_STRESS_HOST);
    sync(&conn, &mut job, &host);
    assert!(
        started.elapsed() < Duration::from_secs(30),
        "sync-from should complete in under 30s"
    );

    let local_count = count(&conn, "SELECT COUNT(*) FROM memories");
    assert!(
        local_count >= 5000,
        "expected at least 5000 local sqlite rows, got {local_count}"
    );

    let mut job = sync_from_host("test-key", SYNC_STRESS_HOST);
    sync(&conn, &mut job, &host);
    assert_eq!(job.result.inserted, 0, "sync-from rerun should insert zero new rows");
    assert_eq!(job.result.updated, 5321);
}

#[test]
fn every_memory_is_pulled_whatever_the_number() {
    for memories in [0, 1, 99, 100, 101, 200, 250] {
        let conn = open_db();
        let mut job = sync_from_host("k", " http://h/ ");
        let lines = sync(&conn, &mut job, &Host { memories, version: 1, says_total: false, nameless: None });
        assert_eq!(job.result.processed, memories);
        assert_eq!(job.result.inserted, memories);
        assert_eq!(job.result.total, None);
        assert_eq!(count(&conn, "SELECT COUNT(*) FROM memories"), memories as i64);
        assert_eq!(
            lines,
            vec![format!("synced {memories} new records ({memories} rows processed)")]
        );
    }
}

#[test]
fn a_rerun_refreshes_the_rows() {
    let conn = open_db();
    let mut job = sync_from_host("k", "http://h");
    sync(&conn, &mut job, &Host { memories: 3, version: 1, says_total: true, nameless: None });
    let mut job = sync_from_host("k", "http://h");
    let lines = sync(&conn, &mut job, &Host { memories: 4, version: 2, says_total: true, nameless: None });
    assert_eq!((job.result.inserted, job.result.updated, job.result.processed), (1, 3, 4));
    assert_eq!(count(&conn, "SELECT COUNT(*) FROM memories WHERE content LIKE '%version 2'"), 4);
    assert_eq!(lines, vec!["synced 1 new records (4 rows processed)".to_string()]);
}

#[test]
fn a_sync_ends_at_a_memory_without_an_identifier() {
    for nameless in [0, 5, 99, 100, 142] {
        let conn = open_db();
        let host =
            Host { memories: 143, version: 1, says_total: true, nameless: Some(nameless) };
        let mut job = sync_from_host("k", "http://h");
        assert_eq!(sync(&conn, &mut job, &host), vec!["memory is missing id"]);
        assert_eq!(job.result.inserted, nameless);
        assert_eq!(count(&conn, "SELECT COUNT(*) FROM memories"), nameless as i64);
        let mut job = sync_from_host("k", "http://h");
        assert_eq!(sync(&conn, &mut job, &host), vec!["memory is missing id"]);
        assert_eq!((job.result.inserted, job.result.updated), (0, nameless));
    }
}

#[test]
fn a_page_gives_the_rows_before_a_failure() {
    let mut job = sync_from_host("k", "http://h");
    let page = job.page(&decode_json("[{\"id\":1},{\"id\":2},{\"id\":\" \"},{\"id\":3}]").unwrap());
    assert_eq!(page.count, 4);
    assert_eq!(page.rows.iter().map(|row| row.id.as_str()).collect::<Vec<_>>(), vec!["1", "2"]);
    assert!(page.failure.is_some());
    let page = job.page(&decode_json("{\"items\":[{\"id\":1}]}").unwrap());
    assert_eq!((page.count, page.rows.len(), page.failure), (1, 1, None));
}

#[test]
fn of_memories_with_one_identifier_the_last_is_stored() {
    let conn = open_db();
    let mut job = sync_from_host("k", "http://h");
    let page = job.page(
        &decode_json("[{\"id\":1,\"content\":\"a\"},{\"id\":2},{\"id\":1,\"content\":\"b\"}]").unwrap(),
    );
    for row in &page.rows {
        let inserted = upsert(&conn, row);
        job.row_stored(inserted);
    }
    assert_eq!((job.result.inserted, job.result.updated), (2, 1));
    assert_eq!(count(&conn, "SELECT COUNT(*) FROM memories WHERE id = '1' AND content = 'b'"), 1);
}

#[test]
fn a_sync_reports_progress() {
    let conn = open_db();
    let options = SyncOptions { progress_every: Some(100) };
    let mut job = sync_from_host_with_options("k", "http://h", options);
    assert_eq!(
        sync(&conn, &mut job, &Host { memories: 250, version: 1, says_total: true, nameless: None }),
        vec![
            "[progress] 100/250 rows processed",
            "[progress] 200/250 rows processed",
            "[progress] 250/250 rows processed",
            "[progress] 250/250 rows processed",
            "synced 250 new records (250 rows processed)",
        ]
    );
    let mut job = sync_from_host_with_options("k", "http://h", options);
    assert_eq!(
        sync(&conn, &mut job, &Host { memories: 150, version: 1, says_total: false, nameless: None }),
        vec![
            "[progress] 100/unknown rows processed",
            "[progress] 150/150 rows processed",
            "synced 0 new records (150 rows processed)",
        ]
    );
}

#[test]
fn a_page_is_asked_for_at_its_offset() {
    let mut job = sync_from_host("key", " http://h// ");
    assert_eq!(job.request_context(), "pull memories from http://h at offset 0");
    assert!(job.page_end(100));
    let request = job.next_request();
    assert_eq!(request.url, "http://h/v1/memories");
    assert_eq!(request.bearer, "key");
    assert_eq!(request.context, "GET remote /v1/memories");
    assert_eq!(request.query, vec![("limit".to_string(), 100), ("offset".to_string(), 100)]);
    assert!(matches!(request.body, Body::Empty));
    assert_eq!(job.request_context(), "pull memories from http://h at offset 100");
    assert!(!job.page_end(99));
    assert_eq!(job.offset, 100);
}

#[test]
fn the_first_total_stays() {
    let mut job = sync_from_host("k", "http://h");
    job.page(&decode_json("{\"memories\":[]}").unwrap());
    assert_eq!(job.result.total, None);
    job.page(&decode_json("{\"count\":\"5\"}").unwrap());
    job.page(&decode_json("{\"total\":9}").unwrap());
    assert_eq!(job.result.total, Some(5));
}

#[test]
fn a_memory_is_stored_by_its_fields() {
    let memory = decode_json(
        "{\"id\":7,\"content\":\" c \",\"category\":\"\",\"createdAt\":\"now\",\"x\":[1.5]}",
    )
    .unwrap();
    let row = memory_row(&memory).unwrap();
    assert_eq!(row.id, "7");
    assert_eq!(row.content, "c");
    assert_eq!(row.category, "facts");
    assert_eq!(row.created_at, "now");
    assert_eq!(
        row.raw_json,
        "{\"category\":\"\",\"content\":\" c \",\"createdAt\":\"now\",\"id\":7,\"x\":[1.5]}"
    );
    assert_eq!(encode_json(&decode_json(&row.raw_json).unwrap()), encode_json(&memory));
    let row = memory_row(&decode_json("{\"id\":\"a\"}").unwrap()).unwrap();
    assert_eq!((row.content.as_str(), row.created_at.as_str()), ("", ""));
}

#[test]
fn a_memory_without_an_identifier_is_not_stored() {
    for memory in ["{}", "{\"id\":\" \"}", "{\"id\":null}", "{\"memory_id\":\"m\"}", "[]"] {
        let error = memory_row(&decode_json(memory).unwrap()).unwrap_err();
        assert_eq!(error.message(), "memory is missing id");
    }
}

#[test]
fn an_insert_that_changed_nothing_asks_for_an_update() {
    assert_eq!(after_insert(1), UpsertStep::Inserted);
    assert_eq!(after_insert(0), UpsertStep::Update);
}

/// A service that keeps what it is sent.
struct Service {
    memories: Vec<Json>,
    posts: usize,
    answer: fn(&Service, &Json) -> (u16, String),
}

impl Service {
    fn new() -> Service {
        Service { memories: Vec::new(), posts: 0, answer: accept }
    }

    fn answering(answer: fn(&Service, &Json) -> (u16, String)) -> Service {
        Service { answer, ..Service::new() }
    }

    fn post(&mut self, body: &str) -> Result<Json, JsonRequestError> {
        self.posts += 1;
        let value = decode_json(body).unwrap();
        let (status, answer) = (self.answer)(self, &value);
        if (200..300).contains(&status) {
            self.memories.push(value);
        }
        read_answer("POST /v1/memories", status, &answer)
    }

    fn ids_for_namespace(&self, namespace: &str) -> Vec<String> {
        let found = object(vec![(
            "results",
            Json::Array(
                self.memories
                    .iter()
                    .map(|memory| decode_json(&encode_json(memory)).unwrap())
                    .collect(),
            ),
        )]);
        memory_items(&found)
            .into_iter()
            .filter(|memory| string_field(memory, &["namespace"]).as_deref() == Some(namespace))
            .filter_map(|memory| string_field(memory, &["id", "memory_id", "memoryId"]))
            .collect()
    }
}

fn accept(_: &Service, value: &Json) -> (u16, String) {
    (201, encode_json(value))
}

/// What came of an import: the job, what it printed, and why it was given up.
struct Outcome {
    result: ImportResult,
    notices: Vec<String>,
    progress: Vec<String>,
    aborted: Option<(String, String)>,
}

fn ledger_entries(conn: &Connection, row: &ImportRow, source: &str, by_id: bool) -> i64 {
    if by_id {
        conn.query_row(
            "SELECT COUNT(*) FROM imported_memories WHERE memory_id = ?1",
            (&row.input_id,),
            |row| row.get(0),
        )
        .unwrap()
    } else {
        conn.query_row(
            "SELECT COUNT(*) FROM imported_memories WHERE source = ?1 AND source_line_hash = ?2",
            (source, &row.line_hash),
            |row| row.get(0),
        )
        .unwrap()
    }
}

/// Imports a file from a source.
fn import(
    conn: &Connection,
    service: &mut Service,
    source: &str,
    file: &str,
    options: ImportOptions,
) -> Outcome {
    let total = file.lines().fold(0, count_jsonl_rows);
    let mut job: ImportJob = import_jsonl_with_options(total, options);
    let mut outcome = Outcome {
        result: job.result,
        notices: Vec::new(),
        progress: Vec::new(),
        aborted: None,
    };
    'lines: for line in file.lines() {
        assert!(job.can_read());
        let mut step = job.line(line);
        loop {
            outcome.notices.extend(step.notice);
            outcome.progress.extend(step.progress);
            step = match step.action {
                ImportAction::NextLine => break,
                ImportAction::Stop => break 'lines,
                ImportAction::FindId(row) => {
                    let found = ledger_entries(conn, &row, source, true);
                    job.id_found(row, found)
                }
                ImportAction::FindLine(row) => {
                    let found = ledger_entries(conn, &row, source, false);
                    job.line_found(row, found)
                }
                ImportAction::Post(row, body) => {
                    assert!(job.is_waiting());
                    let reply = service.post(&body);
                    job.replied(row, reply)
                }
                ImportAction::Record(record) => {
                    let changed = conn.execute(
                        "INSERT OR IGNORE INTO imported_memories (
                             source, source_line_hash, memory_id, raw_json
                         ) VALUES (?1, ?2, ?3, ?4)",
                        (source, &record.row.line_hash, &record.memory_id, &record.row.text),
                    )
                    .unwrap();
                    job.recorded(record, changed)
                }
                ImportAction::Abort(error, context) => {
                    outcome.aborted = Some((context, error.message));
                    break 'lines;
                }
            };
        }
    }
    outcome.progress.extend(job.finish());
    outcome.result = job.result;
    assert_eq!(
        job.summary(),
        format!("success={} fail={}", job.result.imported, job.result.failed)
    );
    outcome
}

fn skip_bad() -> ImportOptions {
    ImportOptions { skip_bad: true, progress_every: None }
}

fn write_jsonl(namespace: &str, rows: usize, bad_row: Option<usize>) -> (String, Vec<String>) {
    let mut file = String::new();
    let mut ids = Vec::new();
    for index in 1..=rows {
        let id = format!("{namespace}-{index:04}");
        let mut members = vec![
            ("id", text(&id)),
            ("category", text("facts")),
            ("namespace", text(namespace)),
        ];
        if bad_row != Some(index) {
            let content = format!("mnemosctl stress memory {index} in {namespace}");
            members.push(("content", text(&content)));
        }
        file.push_str(&encode_json(&object(members)));
        file.push('\n');
        ids.push(id);
    }
    (file, ids)
}

fn assert_all_ids_present(expected: &[String], found: &[String]) {
    let found = found.iter().collect::<BTreeSet<_>>();
    let missing = expected.iter().filter(|id| !found.contains(id)).collect::<Vec<_>>();
    assert!(missing.is_empty(), "missing imported IDs: {missing:?}");
}

#[test]
fn bulk_import_streams_one_thousand_memories() {
    let conn = open_db();
    let mut service = Service::new();
    let namespace = "mnemosctl-stress-bulk";
    let (file, expected_ids) = write_jsonl(namespace, 1000, None);

    let outcome =
        import(&conn, &mut service, "memories.jsonl", &file, ImportOptions::default());
    let found_ids = service.ids_for_namespace(namespace);

    assert_eq!(outcome.result.imported, 1000);
    assert_eq!(outcome.result.failed, 0);
    assert_all_ids_present(&expected_ids, &found_ids);
}

#[test]
fn import_resumes_after_bad_row_with_skip_bad() {
    let conn = open_db();
    let mut service = Service::new();
    let namespace = "mnemosctl-stress-resume";
    let (file, expected_ids) = write_jsonl(namespace, 100, Some(50));

    let first_result =
        import(&conn, &mut service, "memories.jsonl", &file, ImportOptions::default()).result;
    assert_eq!(first_result.imported, 49);
    assert_eq!(first_result.failed, 1);
    assert_eq!(first_result.processed, 50);

    let found_after_first = service.ids_for_namespace(namespace);
    assert_eq!(found_after_first.len(), 49);

    let second_result = import(
        &conn,
        &mut service,
        "memories.jsonl",
        &file,
        ImportOptions {
            skip_bad: true,
            progress_every: None,
        },
    )
    .result;
    let found_after_second = service.ids_for_namespace(namespace);

    assert_eq!(second_result.imported, 50);
    assert_eq!(second_result.skipped_existing, 49);
    assert_eq!(second_result.failed, 1);
    assert_eq!(second_result.processed, 100);

    let expected_created = expected_ids
        .iter()
        .enumerate()
        .filter(|(index, _)| index + 1 != 50)
        .map(|(_, id)| id.clone())
        .collect::<Vec<_>>();
    assert_all_ids_present(&expected_created, &found_after_second);
}

#[test]
fn importing_again_sends_nothing() {
    let conn = open_db();
    let mut service = Service::new();
    let file = "{\"content\":\"a\"}\n\n{\"id\":1,\"content\":\"b\"}\n  {\"content\":\"c\"} \n";
    let first = import(&conn, &mut service, "s", file, ImportOptions::default()).result;
    assert_eq!(
        first,
        ImportResult { processed: 3, imported: 3, skipped_existing: 0, failed: 0, total: 3 }
    );
    assert_eq!(service.posts, 3);
    let second = import(&conn, &mut service, "s", file, skip_bad()).result;
    assert_eq!(
        second,
        ImportResult { processed: 3, imported: 0, skipped_existing: 3, failed: 0, total: 3 }
    );
    assert_eq!(service.posts, 3);
}

#[test]
fn white_space_around_rows_changes_nothing() {
    let rows = ["{\"content\":\"a\"}", "no json", "{\"id\":2,\"content\":\"b\"}", "{\"content\":\"a\"}"];
    let bare = rows.join("\n");
    let padded = format!("\n \t\n {} \n\n\t{}\u{3000}\n{}\n \n\n  {}\n\n", rows[0], rows[1], rows[2], rows[3]);
    let run = |file: &str| {
        let conn = open_db();
        let mut service = Service::new();
        let result = import(&conn, &mut service, "s", file, skip_bad()).result;
        let sent = service.memories.iter().map(encode_json).collect::<Vec<_>>();
        let hashes = conn
            .prepare("SELECT source_line_hash FROM imported_memories ORDER BY source_line_hash")
            .unwrap()
            .query_map([], |row| row.get::<_, String>(0))
            .unwrap()
            .map(|hash| hash.unwrap())
            .collect::<Vec<_>>();
        (result, sent, hashes)
    };
    let (result, sent, hashes) = run(&bare);
    assert_eq!(
        result,
        ImportResult { processed: 4, imported: 2, skipped_existing: 1, failed: 1, total: 4 }
    );
    assert_eq!(run(&padded), (result, sent, hashes));
}

#[test]
fn the_ledger_knows_a_memory_in_another_file_by_its_identifier_only() {
    let conn = open_db();
    let mut service = Service::new();
    let file = "{\"id\":\"m\",\"content\":\"a\"}\n{\"content\":\"b\"}\n";
    import(&conn, &mut service, "one", file, skip_bad());
    let other = import(&conn, &mut service, "two", file, skip_bad()).result;
    assert_eq!((other.skipped_existing, other.imported), (1, 1));
    let changed = "{\"memory_id\":\"m\",\"content\":\"changed\"}\n";
    let third = import(&conn, &mut service, "one", changed, skip_bad()).result;
    assert_eq!(third.skipped_existing, 1);
}

#[test]
fn rows_that_get_one_identifier_are_not_sent_again() {
    let conn = open_db();
    let mut service = Service::answering(|_, _| (200, "{\"id\":\"m1\"}".to_string()));
    let file = "{\"content\":\"x\"}\n{\"content\":\"y\"}\n";
    let first = import(&conn, &mut service, "s", file, ImportOptions::default()).result;
    assert_eq!(
        first,
        ImportResult { processed: 2, imported: 2, skipped_existing: 0, failed: 0, total: 2 }
    );
    let second = import(&conn, &mut service, "s", file, ImportOptions::default()).result;
    assert_eq!(
        second,
        ImportResult { processed: 2, imported: 0, skipped_existing: 2, failed: 0, total: 2 }
    );
    assert_eq!(service.posts, 2);
}

#[test]
fn the_entries_of_the_ledger_stay_apart() {
    let conn = open_db();
    let mut service = Service::answering(|_, _| (200, "{\"memory\":{\"id\":\"same\"}}".to_string()));
    let file = "{\"content\":\"a\"}\n{\"content\":\"b\"}\n{\"content\":\"a\"}\n";
    let result = import(&conn, &mut service, "s", file, skip_bad()).result;
    assert_eq!((result.imported, result.skipped_existing), (2, 1));
    assert_eq!(count(&conn, "SELECT COUNT(*) FROM imported_memories"), 2);
    assert_eq!(count(&conn, "SELECT COUNT(*) FROM imported_memories WHERE memory_id = 'same'"), 1);
    assert_eq!(count(&conn, "SELECT COUNT(*) FROM imported_memories WHERE memory_id IS NULL"), 1);
}

#[test]
fn a_row_is_entered_without_an_identifier_that_is_taken() {
    let mut job = import_jsonl(1);
    let row = match job.line("{\"content\":\"a\"}").action {
        ImportAction::FindLine(row) => row,
        other => panic!("{other:?}"),
    };
    let row = match job.line_found(row, 0).action {
        ImportAction::Post(row, _) => row,
        other => panic!("{other:?}"),
    };
    let record = match job.replied(row, read_answer("c", 200, "{\"id\":\"m\"}")).action {
        ImportAction::Record(record) => record,
        other => panic!("{other:?}"),
    };
    assert_eq!(record.memory_id, Some("m".to_string()));
    let record = match job.recorded(record, 0).action {
        ImportAction::Record(record) => record,
        other => panic!("{other:?}"),
    };
    assert_eq!(record.memory_id, None);
    assert!(job.is_waiting());
    assert!(matches!(job.recorded(record, 1).action, ImportAction::NextLine));
    assert_eq!(job.result.imported, 1);
}

#[test]
fn bad_rows_are_told_and_skipped() {
    let conn = open_db();
    let mut service = Service::answering(|_, value| match string_field(value, &["content"]) {
        Some(content) if content == "refused" => (422, "no".to_string()),
        _ => (201, String::new()),
    });
    let file = "{\"content\":\"a\"}\nnot json\n\n[1]\n{\"content\":\" \"}\n{\"content\":\"refused\"}\n{\"content\":\"b\"}\n";
    let outcome = import(&conn, &mut service, "s", file, skip_bad());
    assert_eq!(
        outcome.result,
        ImportResult { processed: 6, imported: 2, skipped_existing: 0, failed: 4, total: 6 }
    );
    let reason = serde_json::from_str::<serde_json::Value>("not json").unwrap_err();
    assert_eq!(
        outcome.notices,
        vec![
            format!("line 2 failed: invalid JSON: {reason}"),
            "line 4 failed: row must be a JSON object".to_string(),
            "line 5 failed: missing required field content".to_string(),
            "line 6 failed: POST /v1/memories returned HTTP 422: no".to_string(),
        ]
    );
}

#[test]
fn the_first_bad_row_stops_the_import() {
    for (bad, posts) in [("not json", 1), ("7", 1), ("{\"content\":\"refused\"}", 2)] {
        let conn = open_db();
        let mut service = Service::answering(|_, value| match string_field(value, &["content"]) {
            Some(content) if content == "refused" => (400, "no".to_string()),
            _ => (201, String::new()),
        });
        let file = format!("{{\"content\":\"a\"}}\n{bad}\n{{\"content\":\"b\"}}\n");
        let outcome = import(&conn, &mut service, "s", &file, ImportOptions::default());
        assert_eq!(
            outcome.result,
            ImportResult { processed: 2, imported: 1, skipped_existing: 0, failed: 1, total: 3 }
        );
        assert_eq!(outcome.notices.len(), 1);
        assert_eq!(service.posts, posts);
    }
}

#[test]
fn a_conflict_counts_as_existing_if_the_row_has_an_identifier() {
    let conn = open_db();
    let mut service = Service::answering(|_, _| (409, "twice".to_string()));
    let file = "{\"id\":\"m\",\"content\":\"a\"}\n{\"content\":\"b\"}\n";
    let outcome = import(&conn, &mut service, "s", file, skip_bad());
    assert_eq!(
        outcome.result,
        ImportResult { processed: 2, imported: 0, skipped_existing: 1, failed: 1, total: 2 }
    );
    assert_eq!(
        outcome.notices,
        vec![
            "line 1 already exists: POST /v1/memories returned HTTP 409: twice",
            "line 2 failed: POST /v1/memories returned HTTP 409: twice",
        ]
    );
    assert_eq!(count(&conn, "SELECT COUNT(*) FROM imported_memories WHERE memory_id = 'm'"), 1);
    let again = import(&conn, &mut service, "s", file, skip_bad()).result;
    assert_eq!((again.skipped_existing, again.failed), (1, 1));
    assert_eq!(service.posts, 3);
}

#[test]
fn a_failing_service_ends_the_import() {
    let conn = open_db();
    let mut service = Service::answering(|service, _| {
        if service.posts == 2 {
            (503, "down".to_string())
        } else {
            (201, String::new())
        }
    });
    let file = "{\"content\":\"a\"}\n\n{\"content\":\"b\"}\n{\"content\":\"c\"}\n";
    let outcome = import(&conn, &mut service, "s", file, skip_bad());
    assert_eq!(
        outcome.aborted,
        Some((
            "import line 3".to_string(),
            "POST /v1/memories returned HTTP 503: down".to_string()
        ))
    );
    assert_eq!(
        outcome.result,
        ImportResult { processed: 2, imported: 1, skipped_existing: 0, failed: 0, total: 3 }
    );
    assert_eq!(count(&conn, "SELECT COUNT(*) FROM imported_memories"), 1);
}

#[test]
fn a_request_that_could_not_be_sent_ends_the_import() {
    let mut job = import_jsonl(1);
    let step = job.line("{\"content\":\"a\"}");
    let row = match step.action {
        ImportAction::FindLine(row) => row,
        other => panic!("{other:?}"),
    };
    let (row, body) = match job.line_found(row, 0).action {
        ImportAction::Post(row, body) => (row, body),
        other => panic!("{other:?}"),
    };
    assert_eq!(body, "{\"content\":\"a\"}");
    let config = Config { base_url: "http://h".to_string(), api_key: "k".to_string() };
    let request = post_memory(&config, body);
    let failure = send_failure(&request.context, "refused");
    match job.replied(row, Err(failure)).action {
        ImportAction::Abort(error, context) => {
            assert_eq!(error.message, "POST /v1/memories request failed: refused");
            assert_eq!(context, "import line 1");
        }
        other => panic!("{other:?}"),
    }
    assert!(!job.can_read());
}

#[test]
fn the_service_may_name_a_row() {
    let conn = open_db();
    let mut service = Service::answering(|service, _| {
        (201, format!("{{\"data\":{{\"memory_id\":\"given-{}\"}}}}", service.posts))
    });
    let file = "{\"content\":\"a\"}\n{\"memoryId\":5,\"content\":\"b\"}\n";
    import(&conn, &mut service, "s", file, skip_bad());
    for id in ["given-1", "5"] {
        let query = format!("SELECT COUNT(*) FROM imported_memories WHERE memory_id = '{id}'");
        assert_eq!(count(&conn, &query), 1);
    }
}

#[test]
fn an_import_reports_progress() {
    let conn = open_db();
    let mut service = Service::new();
    let (file, _) = write_jsonl("p", 5, None);
    let options = ImportOptions { skip_bad: false, progress_every: Some(2) };
    let outcome = import(&conn, &mut service, "s", &file, options);
    assert_eq!(
        outcome.progress,
        vec![
            "[progress] 2/5 rows processed",
            "[progress] 4/5 rows processed",
            "[progress] 5/5 rows processed",
            "[progress] 5/5 rows processed",
        ]
    );
    let (file, _) = write_jsonl("q", 3, Some(3));
    let outcome = import(&conn, &mut service, "s", &file, options);
    assert_eq!(
        outcome.progress,
        vec![
            "[progress] 2/3 rows processed",
            "[progress] 3/3 rows processed",
            "[progress] 3/3 rows processed",
        ]
    );
}

#[test]
fn rows_are_counted_without_blank_lines() {
    assert_eq!(["a", "", "  ", "\u{a0}", "b"].iter().fold(0, |n, line| count_jsonl_rows(n, line)), 2);
}

#[test]
fn rows_are_checked() {
    let check = |text: &str| validate_import_row(&decode_json(text).unwrap());
    assert_eq!(check("{\"content\":\"a\"}"), Ok(()));
    assert_eq!(check("{\"content\":0}"), Ok(()));
    assert_eq!(check("[]"), Err(RowError::NotAnObject));
    assert_eq!(check("{}"), Err(RowError::MissingContent));
    assert_eq!(check("{\"content\":[\"a\"]}"), Err(RowError::MissingContent));
    assert_eq!(RowError::NotAnObject.message(), "row must be a JSON object");
    assert_eq!(RowError::MissingContent.message(), "missing required field content");
}

#[test]
fn a_row_is_sent_in_full() {
    let mut job = import_jsonl_with_options(1, ImportOptions::default());
    let line = " {\"z\":[-1,2.5,{\"k\":null}],\"content\":\"a\",\"id\":\"x\"} ";
    let row = match job.line(line).action {
        ImportAction::FindId(row) => row,
        other => panic!("{other:?}"),
    };
    assert_eq!(row.line_number, 1);
    assert_eq!(row.text, line.trim());
    assert_eq!(row.line_hash, mnemosctl::hash::stable_hash_hex(line.trim()));
    assert_eq!(row.input_id, Some("x".to_string()));
    let row = match job.id_found(row, 0).action {
        ImportAction::FindLine(row) => row,
        other => panic!("{other:?}"),
    };
    match job.line_found(row, 0).action {
        ImportAction::Post(_, body) => {
            assert_eq!(body, "{\"content\":\"a\",\"id\":\"x\",\"z\":[-1,2.5,{\"k\":null}]}")
        }
        other => panic!("{other:?}"),
    }
    assert!(job.is_waiting() && !job.can_read());
}

//! Pulling the memories of a remote host, page by page, into the local store.
//!
//! A [`SyncJob`] decides; whoever drives it asks the host for pages and writes
//! rows to the store.
use vstd::prelude::*;
use vstd::string::StringExecFns;

use crate::codec::{encode_json, is_text_of, json_compact, survives};
use crate::config::{normalize_base_url, normalized};
use crate::fields::{
    first_of, members_are_read_by_name, memories_of, memory_items, names, said, says_something,
    string_field, text_member, total_count, total_of, trees_behind,
};
use crate::json::{member, Json, JsonView};
use crate::progress::{emit_final_progress, final_report, maybe_emit_progress, row_report};
use crate::request::{join_url, joined, ApiRequest, Body, BodyView, Method, RequestView};
use crate::text::{decimal, decimal_text, text_of, trimmed};

verus! {

/// The number of memories on a full page.
pub const DEFAULT_PAGE_SIZE: usize = 100;

/// How to synchronize.
#[derive(Clone, Copy, Debug)]
pub struct SyncOptions {
    pub progress_every: Option<usize>,
}

/// What a synchronization did so far.
#[derive(Clone, Copy, Debug)]
pub struct SyncResult {
    pub processed: usize,
    pub inserted: usize,
    pub updated: usize,
    pub total: Option<usize>,
}

impl Default for SyncOptions {
    /// Without reports of progress.
    fn default() -> (r: SyncOptions)
        ensures
            r.progress_every is None,
    {
        SyncOptions { progress_every: None }
    }
}

impl Default for SyncResult {
    /// Nothing done yet.
    fn default() -> (r: SyncResult)
        ensures
            r == (SyncResult { processed: 0, inserted: 0, updated: 0, total: None }),
    {
        SyncResult { processed: 0, inserted: 0, updated: 0, total: None }
    }
}

/// A memory as the local store keeps it, under its identifier.
#[derive(Debug)]
pub struct MemoryRow {
    pub id: String,
    pub content: String,
    pub category: String,
    pub created_at: String,
    pub raw_json: String,
}

/// A stored memory as a value of the model.
pub struct RowView {
    pub id: Seq<char>,
    pub content: Seq<char>,
    pub category: Seq<char>,
    pub created_at: Seq<char>,
    pub raw_json: Seq<char>,
}

impl View for MemoryRow {
    type V = RowView;

    open spec fn view(&self) -> RowView {
        RowView {
            id: self.id@,
            content: self.content@,
            category: self.category@,
            created_at: self.created_at@,
            raw_json: self.raw_json@,
        }
    }
}

/// A memory without an identifier cannot be stored.
#[derive(Clone, Copy, Debug, PartialEq, Eq, Structural)]
pub struct MissingId;

impl MissingId {
    /// The message for the user.
    pub fn message(&self) -> (r: String)
        ensures
            r@ == "memory is missing id"@,
    {
        "memory is missing id".to_owned()
    }
}

/// A member as text, or a text in its place.
pub open spec fn text_or(value: Option<Seq<char>>, default: Seq<char>) -> Seq<char> {
    match value {
        Some(text) => text,
        None => default,
    }
}

/// The row that stores a memory; none if the memory has no identifier.
pub open spec fn row_of(memory: JsonView) -> Option<RowView> {
    match text_member(memory, seq!["id"@]) {
        Some(id) => Some(
            RowView {
                id,
                content: text_or(text_member(memory, seq!["content"@]), Seq::empty()),
                category: text_or(text_member(memory, seq!["category"@]), "facts"@),
                created_at: text_or(
                    text_member(memory, seq!["created_at"@, "createdAt"@]),
                    Seq::empty(),
                ),
                raw_json: json_compact(memory),
            },
        ),
        None => None,
    }
}

/// The row that stores a memory.
pub fn memory_row(memory: &Json) -> (r: Result<MemoryRow, MissingId>)
    ensures
        (match r {
            Ok(row) => Some(row@),
            Err(_) => None,
        }) == row_of(memory@),
        r is Ok && survives(memory@) ==> is_text_of(r->Ok_0.raw_json@, memory@),
        r is Ok <==> says_something(member(memory@, "id"@)),
        r is Ok ==> r->Ok_0.id@ == said(member(memory@, "id"@), Seq::empty()),
        r is Ok ==> r->Ok_0.content@ == said(member(memory@, "content"@), Seq::empty()),
        r is Ok ==> r->Ok_0.category@ == said(member(memory@, "category"@), "facts"@),
        r is Ok ==> r->Ok_0.created_at@ == said(
            first_of(memory@, "created_at"@, "createdAt"@, "createdAt"@),
            Seq::empty(),
        ),
        r is Ok ==> r->Ok_0.raw_json@ == json_compact(memory@),
{
    proof {
        memory_keeps_its_fields(memory@);
    }
    let id_keys = ["id"];
    assert(names(id_keys@) =~= seq!["id"@]);
    let id = match string_field(memory, &id_keys) {
        Some(id) => id,
        None => {
            return Err(MissingId);
        },
    };
    let content_keys = ["content"];
    assert(names(content_keys@) =~= seq!["content"@]);
    let content = match string_field(memory, &content_keys) {
        Some(content) => content,
        None => String::new(),
    };
    let category_keys = ["category"];
    assert(names(category_keys@) =~= seq!["category"@]);
    let category = match string_field(memory, &category_keys) {
        Some(category) => category,
        None => "facts".to_owned(),
    };
    let created_keys = ["created_at", "createdAt"];
    assert(names(created_keys@) =~= seq!["created_at"@, "createdAt"@]);
    let created_at = match string_field(memory, &created_keys) {
        Some(created_at) => created_at,
        None => String::new(),
    };
    Ok(MemoryRow { id, content, category, created_at, raw_json: encode_json(memory) })
}

/// The number of memories before the first one without an identifier.
pub open spec fn storable(memories: Seq<JsonView>) -> nat
    decreases memories.len(),
{
    if memories.len() == 0 || row_of(memories.first()) is None {
        0
    } else {
        1 + storable(memories.drop_first())
    }
}

/// The rows of some memories that all have identifiers.
pub open spec fn rows_of(memories: Seq<JsonView>) -> Seq<RowView> {
    Seq::new(memories.len(), |i: int| row_of(memories[i])->0)
}

/// The rows that are stored of some memories: those before the first memory
/// without an identifier.
pub open spec fn rows_before_failure(memories: Seq<JsonView>) -> Seq<RowView> {
    rows_of(memories.take(storable(memories) as int))
}

/// The values behind a list of rows.
pub open spec fn row_views(rows: Seq<MemoryRow>) -> Seq<RowView> {
    Seq::new(rows.len(), |i: int| rows[i]@)
}

/// A page: how many memories it has, and the rows to store in turn. With a
/// `failure` the synchronization ends behind these rows.
#[derive(Debug)]
pub struct SyncPage {
    pub count: usize,
    pub rows: Vec<MemoryRow>,
    pub failure: Option<MissingId>,
}

/// Everything before the first memory without an identifier has one.
proof fn lemma_storable(memories: Seq<JsonView>)
    ensures
        storable(memories) <= memories.len(),
        forall|i: int| 0 <= i < storable(memories) ==> row_of(#[trigger] memories[i]) is Some,
        storable(memories) < memories.len() ==> row_of(memories[storable(memories) as int]) is None,
    decreases memories.len(),
{
    if memories.len() > 0 && row_of(memories.first()) is Some {
        let rest = memories.drop_first();
        lemma_storable(rest);
        assert forall|i: int| 0 <= i < storable(memories) implies row_of(
            #[trigger] memories[i],
        ) is Some by {
            if i > 0 {
                assert(rest[i - 1] == memories[i]);
            }
        }
    }
}

/// The place of the first memory without an identifier.
proof fn lemma_storable_is(memories: Seq<JsonView>, n: int)
    requires
        0 <= n <= memories.len(),
        forall|i: int| 0 <= i < n ==> row_of(#[trigger] memories[i]) is Some,
        n < memories.len() ==> row_of(memories[n]) is None,
    ensures
        storable(memories) == n,
{
    lemma_storable(memories);
    let k = storable(memories) as int;
    if k < n {
        assert(row_of(memories[k]) is Some);
    } else if n < k {
        assert(row_of(memories[n]) is Some);
    }
}

/// What is to be done after the attempt to insert a row.
#[derive(Clone, Copy, Debug, PartialEq, Eq, Structural)]
pub enum UpsertStep {
    /// The row was new and is stored.
    Inserted,
    /// There is a row of that identifier: all its other columns are to be
    /// replaced.
    Update,
}

/// What is to be done after the attempt to insert a row, which leaves a row of
/// the same identifier alone, given how many rows it changed.
pub fn after_insert(changed: usize) -> (r: UpsertStep)
    ensures
        r == (if changed == 1 {
            UpsertStep::Inserted
        } else {
            UpsertStep::Update
        }),
{
    if changed == 1 {
        UpsertStep::Inserted
    } else {
        UpsertStep::Update
    }
}

/// A synchronization under way.
#[derive(Debug)]
pub struct SyncJob {
    pub host: String,
    pub api_key: String,
    pub options: SyncOptions,
    pub offset: usize,
    pub result: SyncResult,
}

/// Whether the counts add up: every row was either new or known.
pub open spec fn adds_up(result: SyncResult) -> bool {
    result.processed == result.inserted + result.updated
}

/// The counts after one more row.
pub open spec fn counted(result: SyncResult, inserted: bool) -> SyncResult {
    SyncResult {
        processed: (result.processed + 1) as usize,
        inserted: if inserted {
            (result.inserted + 1) as usize
        } else {
            result.inserted
        },
        updated: if inserted {
            result.updated
        } else {
            (result.updated + 1) as usize
        },
        total: result.total,
    }
}

/// Whether a page with so many memories is followed by another.
pub open spec fn more_pages(count: int) -> bool {
    count >= DEFAULT_PAGE_SIZE
}

/// The request for the page at an offset.
pub open spec fn page_request(host: Seq<char>, api_key: Seq<char>, offset: usize) -> RequestView {
    RequestView {
        method: Method::Get,
        url: joined(host, "/v1/memories"@),
        bearer: api_key,
        query: seq![("limit"@, DEFAULT_PAGE_SIZE), ("offset"@, offset)],
        body: BodyView::Empty,
        context: "GET remote /v1/memories"@,
    }
}

/// Starts to synchronize from a host, without reports of progress.
pub fn sync_from_host(api_key: &str, host: &str) -> (r: SyncJob)
    ensures
        r.host@ == normalized(host@),
        r.api_key@ == api_key@,
        r.options.progress_every is None,
        r.offset == 0,
        r.result == (SyncResult { processed: 0, inserted: 0, updated: 0, total: None }),
{
    sync_from_host_with_options(api_key, host, SyncOptions::default())
}

/// Starts to synchronize from a host.
pub fn sync_from_host_with_options(api_key: &str, host: &str, options: SyncOptions) -> (r: SyncJob)
    ensures
        r.host@ == normalized(host@),
        r.api_key@ == api_key@,
        r.options == options,
        r.offset == 0,
        r.result == (SyncResult { processed: 0, inserted: 0, updated: 0, total: None }),
{
    SyncJob {
        host: normalize_base_url(host),
        api_key: api_key.to_owned(),
        options,
        offset: 0,
        result: SyncResult::default(),
    }
}

impl SyncJob {
    /// The request for the next page.
    pub fn next_request(&self) -> (r: ApiRequest)
        ensures
            r@ == page_request(self.host@, self.api_key@, self.offset),
            r.method == Method::Get,
            r.url@ == joined(self.host@, "/v1/memories"@),
            r.bearer@ == self.api_key@,
            r.body is Empty,
            r.query@.len() == 2,
            r.query@[0].0@ == "limit"@ && r.query@[0].1 == 100,
            r.query@[1].0@ == "offset"@ && r.query@[1].1 == self.offset,
            r.context@ == "GET remote /v1/memories"@,
    {
        let mut query: Vec<(String, usize)> = Vec::new();
        query.push(("limit".to_owned(), DEFAULT_PAGE_SIZE));
        query.push(("offset".to_owned(), self.offset));
        let r = ApiRequest {
            method: Method::Get,
            url: join_url(self.host.as_str(), "/v1/memories"),
            bearer: self.api_key.clone(),
            query,
            body: Body::Empty,
            context: "GET remote /v1/memories".to_owned(),
        };
        assert(r@.query =~= seq![("limit"@, DEFAULT_PAGE_SIZE), ("offset"@, self.offset)]);
        r
    }

    /// What was being done, for the message when the request fails.
    pub fn request_context(&self) -> (r: String)
        ensures
            r@ == "pull memories from "@ + self.host@ + " at offset "@ + decimal(
                self.offset as nat,
            ),
    {
        "pull memories from ".to_owned().concat(self.host.as_str()).concat(" at offset ").concat(
            decimal_text(self.offset as u64).as_str(),
        )
    }

    /// Takes a page: the rows of its memories, each of which is to be stored in
    /// turn, up to the first memory without an identifier, where the
    /// synchronization fails. The first page that says how many rows there are in
    /// all settles that.
    pub fn page(&mut self, page: &Json) -> (r: SyncPage)
        ensures
            r.count == memories_of(page@).len(),
            row_views(r.rows@) == rows_before_failure(memories_of(page@)),
            forall|i: int|
                0 <= i < r.rows@.len() && survives(memories_of(page@)[i]) ==> is_text_of(
                    (#[trigger] r.rows@[i]).raw_json@,
                    memories_of(page@)[i],
                ),
            r.failure is Some <==> storable(memories_of(page@)) < memories_of(page@).len(),
            *final(self) == (SyncJob {
                result: SyncResult {
                    total: match old(self).result.total {
                        Some(total) => Some(total),
                        None => total_of(page@),
                    },
                    ..old(self).result
                },
                ..*old(self)
            }),
    {
        if self.result.total.is_none() {
            self.result.total = total_count(page);
        }
        let items = memory_items(page);
        let ghost memories = memories_of(page@);
        let mut rows: Vec<MemoryRow> = Vec::new();
        for i in 0..items.len()
            invariant
                trees_behind(items@) == memories,
                rows@.len() == i,
                forall|j: int| 0 <= j < i ==> row_of(#[trigger] memories[j]) is Some,
                forall|j: int| 0 <= j < i ==> (#[trigger] rows@[j])@ == row_of(memories[j])->0,
                forall|j: int|
                    0 <= j < i && survives(memories[j]) ==> is_text_of(
                        (#[trigger] rows@[j]).raw_json@,
                        memories[j],
                    ),
                memories == memories_of(page@),
                *self == (SyncJob {
                    result: SyncResult {
                        total: match old(self).result.total {
                            Some(total) => Some(total),
                            None => total_of(page@),
                        },
                        ..old(self).result
                    },
                    ..*old(self)
                }),
        {
            assert(trees_behind(items@)[i as int] == items@[i as int]@);
            match memory_row(items[i]) {
                Ok(row) => {
                    rows.push(row);
                },
                Err(failure) => {
                    proof {
                        lemma_storable_is(memories, i as int);
                        assert(row_views(rows@) =~= rows_before_failure(memories));
                    }
                    return SyncPage { count: items.len(), rows, failure: Some(failure) };
                },
            }
        }
        proof {
            lemma_storable_is(memories, memories.len() as int);
            assert(row_views(rows@) =~= rows_before_failure(memories));
        }
        SyncPage { count: items.len(), rows, failure: None }
    }

    /// Counts a memory that was stored, `inserted` if it was new there. The line
    /// to print, if any.
    pub fn row_stored(&mut self, inserted: bool) -> (r: Option<String>)
        requires
            adds_up(old(self).result),
            old(self).result.processed < usize::MAX,
        ensures
            *final(self) == (SyncJob {
                result: counted(old(self).result, inserted),
                ..*old(self)
            }),
            adds_up(final(self).result),
            final(self).result.processed == old(self).result.processed + 1,
            inserted ==> final(self).result.inserted == old(self).result.inserted + 1
                && final(self).result.updated == old(self).result.updated,
            !inserted ==> final(self).result.updated == old(self).result.updated + 1
                && final(self).result.inserted == old(self).result.inserted,
            final(self).result.total == old(self).result.total,
            text_of(r) == row_report(
                final(self).result.processed,
                final(self).result.total,
                final(self).options.progress_every,
            ),
    {
        if inserted {
            self.result.inserted = self.result.inserted + 1;
        } else {
            self.result.updated = self.result.updated + 1;
        }
        self.result.processed = self.result.processed + 1;
        maybe_emit_progress(self.result.processed, self.result.total, self.options.progress_every)
    }

    /// Ends a page of so many memories: whether there is another, which starts
    /// behind this one.
    pub fn page_end(&mut self, count: usize) -> (r: bool)
        requires
            old(self).offset + count <= usize::MAX,
        ensures
            r == more_pages(count as int),
            r <==> count >= 100,
            r ==> final(self).offset == old(self).offset + count,
            !r ==> final(self).offset == old(self).offset,
            final(self).result == old(self).result,
            *final(self) == (if r {
                SyncJob { offset: (old(self).offset + count) as usize, ..*old(self) }
            } else {
                *old(self)
            }),
    {
        if count < DEFAULT_PAGE_SIZE {
            return false;
        }
        self.offset = self.offset + count;
        true
    }

    /// The lines to print at the end: a last report of progress, if any, and what
    /// was done.
    pub fn finish(&self) -> (r: (Option<String>, String))
        ensures
            text_of(r.0) == final_report(
                self.result.processed,
                self.result.total,
                self.options.progress_every,
            ),
            r.1@ == "synced "@ + decimal(self.result.inserted as nat) + " new records ("@ + decimal(
                self.result.processed as nat,
            ) + " rows processed)"@,
    {
        let last = emit_final_progress(
            self.result.processed,
            self.result.total,
            self.options.progress_every,
        );
        let summary = "synced ".to_owned().concat(
            decimal_text(self.result.inserted as u64).as_str(),
        ).concat(" new records (").concat(decimal_text(self.result.processed as u64).as_str()).concat(
            " rows processed)",
        );
        (last, summary)
    }
}

/// The local store: rows by their identifiers.
pub type Store = Map<Seq<char>, RowView>;

/// The store after a row was inserted, or the row of its identifier replaced.
pub open spec fn put(store: Store, row: RowView) -> Store {
    store.insert(row.id, row)
}

/// Whether the store has no row of that identifier yet.
pub open spec fn is_new(store: Store, row: RowView) -> bool {
    !store.dom().contains(row.id)
}

/// The counts before the first row.
pub open spec fn nothing_done() -> SyncResult {
    SyncResult { processed: 0, inserted: 0, updated: 0, total: None }
}

/// The store and the counts after some rows were stored in turn.
pub open spec fn stored(store: Store, result: SyncResult, rows: Seq<RowView>) -> (Store, SyncResult)
    decreases rows.len(),
{
    if rows.len() == 0 {
        (store, result)
    } else {
        let (earlier, sofar) = stored(store, result, rows.drop_last());
        (put(earlier, rows.last()), counted(sofar, is_new(earlier, rows.last())))
    }
}

/// The page at an offset of a host that holds `all`: at most a full page of
/// memories from there on.
pub open spec fn page_at(all: Seq<JsonView>, offset: int) -> Seq<JsonView> {
    let end = offset + DEFAULT_PAGE_SIZE;
    all.subrange(
        offset,
        if end < all.len() {
            end
        } else {
            all.len() as int
        },
    )
}

/// How a synchronization ends: the store, the counts, and whether it failed.
pub struct SyncOutcome {
    pub store: Store,
    pub result: SyncResult,
    pub failed: bool,
}

/// The rest of a synchronization from a host that holds `all`: the job asks for
/// the page at an offset, the rows of the page are stored in turn, and unless the
/// page fails or is the last one the job goes on behind it.
pub open spec fn sync_from(
    all: Seq<JsonView>,
    offset: int,
    store: Store,
    result: SyncResult,
) -> SyncOutcome
    recommends
        0 <= offset <= all.len(),
    decreases all.len() - offset,
{
    let page = page_at(all, offset);
    let (after, counts) = stored(store, result, rows_before_failure(page));
    if storable(page) < page.len() {
        SyncOutcome { store: after, result: counts, failed: true }
    } else if 0 <= offset <= all.len() && more_pages(page.len() as int) {
        sync_from(all, offset + page.len(), after, counts)
    } else {
        SyncOutcome { store: after, result: counts, failed: false }
    }
}

/// A synchronization from a host that holds `all`.
pub open spec fn sync_run(all: Seq<JsonView>, store: Store) -> SyncOutcome {
    sync_from(all, 0, store, nothing_done())
}

/// Rows that are stored one list after the other.
proof fn lemma_stored_in_turn(
    store: Store,
    result: SyncResult,
    rows: Seq<RowView>,
    more: Seq<RowView>,
)
    ensures
        ({
            let (after, counts) = stored(store, result, rows);
            stored(store, result, rows + more) == stored(after, counts, more)
        }),
    decreases more.len(),
{
    if more.len() == 0 {
        assert(rows + more =~= rows);
    } else {
        assert((rows + more).drop_last() =~= rows + more.drop_last());
        lemma_stored_in_turn(store, result, rows, more.drop_last());
    }
}

/// From an offset on, a synchronization stores the rows of the memories there.
proof fn lemma_sync_from(all: Seq<JsonView>, offset: int, store: Store, result: SyncResult)
    requires
        0 <= offset <= all.len(),
    ensures
        ({
            let rest = all.skip(offset);
            let outcome = sync_from(all, offset, store, result);
            &&& (outcome.store, outcome.result) == stored(
                store,
                result,
                rows_before_failure(rest),
            )
            &&& outcome.failed == (storable(rest) < rest.len())
        }),
    decreases all.len() - offset,
{
    let rest = all.skip(offset);
    let page = page_at(all, offset);
    let n = storable(page) as int;
    lemma_storable(page);
    assert forall|i: int| 0 <= i < page.len() implies #[trigger] rest[i] == page[i] by {}
    if n < page.len() {
        assert forall|i: int| 0 <= i < n implies row_of(#[trigger] rest[i]) is Some by {
            assert(row_of(page[i]) is Some);
        }
        lemma_storable_is(rest, n);
        assert(rest.take(n) =~= page.take(n));
    } else if more_pages(page.len() as int) {
        let next = offset + page.len();
        let behind = all.skip(next);
        let (after, counts) = stored(store, result, rows_before_failure(page));
        lemma_sync_from(all, next, after, counts);
        lemma_storable(behind);
        let m = storable(behind) as int;
        assert forall|i: int| 0 <= i < n + m implies row_of(#[trigger] rest[i]) is Some by {
            if i < n {
                assert(row_of(page[i]) is Some);
            } else {
                assert(rest[i] == behind[i - n]);
            }
        }
        if m < behind.len() {
            assert(rest[n + m] == behind[m]);
        }
        lemma_storable_is(rest, n + m);
        lemma_stored_in_turn(
            store,
            result,
            rows_before_failure(page),
            rows_before_failure(behind),
        );
        assert(rows_before_failure(page) + rows_before_failure(behind) =~= rows_before_failure(
            rest,
        )) by {
            assert forall|i: int| 0 <= i < n + m implies (#[trigger] rest.take(n + m)[i]) == (if i
                < n {
                page.take(n)[i]
            } else {
                behind.take(m)[i - n]
            }) by {}
        }
    } else {
        assert(page =~= rest);
    }
}

/// A synchronization comes to every memory of the host, each once and in order,
/// until one has no identifier. There it fails: the memories before it are
/// stored, and neither it nor any behind it changes the store.
pub proof fn sync_ends_at_a_memory_without_id(all: Seq<JsonView>, store: Store)
    ensures
        ({
            let outcome = sync_run(all, store);
            let n = storable(all) as int;
            &&& (outcome.store, outcome.result) == stored(
                store,
                nothing_done(),
                rows_of(all.take(n)),
            )
            &&& outcome.failed <==> n < all.len()
            &&& 0 <= n <= all.len()
            &&& forall|i: int| 0 <= i < n ==> row_of(#[trigger] all[i]) is Some
            &&& n < all.len() ==> row_of(all[n]) is None
        }),
{
    assert(all.skip(0) =~= all);
    lemma_sync_from(all, 0, store, nothing_done());
    lemma_storable(all);
}

/// A synchronization from a host whose memories all have identifiers succeeds,
/// and stores every memory, each once and in order, whatever their number.
pub proof fn sync_pulls_everything(all: Seq<JsonView>, store: Store)
    requires
        forall|i: int| 0 <= i < all.len() ==> row_of(#[trigger] all[i]) is Some,
    ensures
        ({
            let outcome = sync_run(all, store);
            &&& !outcome.failed
            &&& (outcome.store, outcome.result) == stored(store, nothing_done(), rows_of(all))
        }),
{
    sync_ends_at_a_memory_without_id(all, store);
    lemma_storable_is(all, all.len() as int);
    assert(all.take(all.len() as int) =~= all);
}

/// The last of the rows with an identifier.
spec fn latest(rows: Seq<RowView>, id: Seq<char>) -> Option<RowView>
    decreases rows.len(),
{
    if rows.len() == 0 {
        None
    } else if rows.last().id == id {
        Some(rows.last())
    } else {
        latest(rows.drop_last(), id)
    }
}

/// Under each identifier the store holds the last row that was stored under it.
proof fn lemma_stored_latest(store: Store, result: SyncResult, rows: Seq<RowView>, id: Seq<char>)
    ensures
        ({
            let after = stored(store, result, rows).0;
            match latest(rows, id) {
                Some(row) => after.dom().contains(id) && after[id] == row,
                None => after.dom().contains(id) == store.dom().contains(id) && (
                store.dom().contains(id) ==> after[id] == store[id]),
            }
        }),
    decreases rows.len(),
{
    if rows.len() > 0 {
        lemma_stored_latest(store, result, rows.drop_last(), id);
    }
}

/// Rows that the store knows are updated, not inserted.
proof fn lemma_known_rows_are_updated(store: Store, rows: Seq<RowView>)
    requires
        rows.len() <= usize::MAX,
        forall|i: int| 0 <= i < rows.len() ==> store.dom().contains((#[trigger] rows[i]).id),
    ensures
        stored(store, nothing_done(), rows).1 == (SyncResult {
            processed: rows.len() as usize,
            inserted: 0,
            updated: rows.len() as usize,
            total: None,
        }),
    decreases rows.len(),
{
    if rows.len() > 0 {
        let earlier = rows.drop_last();
        assert forall|i: int| 0 <= i < earlier.len() implies store.dom().contains(
            (#[trigger] earlier[i]).id,
        ) by {
            assert(earlier[i] == rows[i]);
        }
        lemma_known_rows_are_updated(store, earlier);
        assert(rows.last() == rows[rows.len() - 1]);
        lemma_stored_latest(store, nothing_done(), earlier, rows.last().id);
    }
}

proof fn lemma_latest_of_member(rows: Seq<RowView>, i: int)
    requires
        0 <= i < rows.len(),
    ensures
        latest(rows, rows[i].id) is Some,
    decreases rows.len(),
{
    if rows.last().id != rows[i].id {
        assert(rows.drop_last()[i] == rows[i]);
        lemma_latest_of_member(rows.drop_last(), i);
    }
}

/// Rows that are stored a second time are all updated, and the store stays as it
/// is.
proof fn lemma_stored_again(store: Store, rows: Seq<RowView>)
    requires
        rows.len() <= usize::MAX,
    ensures
        ({
            let (after, _) = stored(store, nothing_done(), rows);
            let (again, result) = stored(after, nothing_done(), rows);
            &&& again == after
            &&& result == (SyncResult {
                processed: rows.len() as usize,
                inserted: 0,
                updated: rows.len() as usize,
                total: None,
            })
        }),
{
    let after = stored(store, nothing_done(), rows).0;
    let again = stored(after, nothing_done(), rows).0;
    assert forall|i: int| 0 <= i < rows.len() implies after.dom().contains(
        (#[trigger] rows[i]).id,
    ) by {
        lemma_latest_of_member(rows, i);
        lemma_stored_latest(store, nothing_done(), rows, rows[i].id);
    }
    lemma_known_rows_are_updated(after, rows);
    assert forall|id: Seq<char>|
        #![trigger again.dom().contains(id)]
        #![trigger again[id]]
        again.dom().contains(id) == after.dom().contains(id) && (after.dom().contains(id)
            ==> again[id] == after[id]) by {
        lemma_stored_latest(store, nothing_done(), rows, id);
        lemma_stored_latest(after, nothing_done(), rows, id);
    }
    assert(again =~= after);
}

/// The identifiers of some rows.
pub open spec fn ids_of(rows: Seq<RowView>) -> Set<Seq<char>> {
    Set::new(|id: Seq<char>| exists|i: int| 0 <= i < rows.len() && (#[trigger] rows[i]).id == id)
}

/// The identifiers of some rows that the store does not have.
pub open spec fn new_ids(store: Store, rows: Seq<RowView>) -> Set<Seq<char>> {
    ids_of(rows).difference(store.dom())
}

proof fn lemma_ids_pushed(rows: Seq<RowView>)
    requires
        rows.len() > 0,
    ensures
        ids_of(rows) == ids_of(rows.drop_last()).insert(rows.last().id),
{
    let earlier = rows.drop_last();
    assert forall|id: Seq<char>| ids_of(rows).contains(id) implies ids_of(earlier).insert(
        rows.last().id,
    ).contains(id) by {
        let i = choose|i: int| 0 <= i < rows.len() && (#[trigger] rows[i]).id == id;
        if i < earlier.len() {
            assert(earlier[i].id == id);
        }
    }
    assert forall|id: Seq<char>|
        ids_of(earlier).insert(rows.last().id).contains(id) implies ids_of(rows).contains(id) by {
        if ids_of(earlier).contains(id) {
            let i = choose|i: int| 0 <= i < earlier.len() && (#[trigger] earlier[i]).id == id;
            assert(rows[i].id == id);
        } else {
            assert(rows[rows.len() - 1].id == id);
        }
    }
    assert(ids_of(rows) =~= ids_of(earlier).insert(rows.last().id));
}

/// Every row that is stored counts once, as new if its identifier is new by then.
proof fn lemma_rows_are_counted(store: Store, rows: Seq<RowView>)
    requires
        rows.len() <= usize::MAX,
    ensures
        ({
            let (after, result) = stored(store, nothing_done(), rows);
            &&& result.processed == rows.len()
            &&& adds_up(result)
            &&& new_ids(store, rows).finite()
            &&& result.inserted == new_ids(store, rows).len()
            &&& after.dom() == store.dom().union(ids_of(rows))
        }),
    decreases rows.len(),
{
    if rows.len() == 0 {
        assert(new_ids(store, rows) =~= Set::empty());
        assert(store.dom() =~= store.dom().union(ids_of(rows)));
    } else {
        let earlier = rows.drop_last();
        let id = rows.last().id;
        lemma_rows_are_counted(store, earlier);
        lemma_ids_pushed(rows);
        let (before, _) = stored(store, nothing_done(), earlier);
        let (after, _) = stored(store, nothing_done(), rows);
        assert(after.dom() =~= store.dom().union(ids_of(rows)));
        if before.dom().contains(id) {
            assert(new_ids(store, rows) =~= new_ids(store, earlier));
        } else {
            assert(new_ids(store, rows) =~= new_ids(store, earlier).insert(id));
        }
    }
}

/// The last row of an identifier.
proof fn lemma_latest_is(rows: Seq<RowView>, i: int)
    requires
        0 <= i < rows.len(),
        forall|j: int| i < j < rows.len() ==> (#[trigger] rows[j]).id != rows[i].id,
    ensures
        latest(rows, rows[i].id) == Some(rows[i]),
    decreases rows.len(),
{
    if i < rows.len() - 1 {
        let earlier = rows.drop_last();
        assert(rows[rows.len() - 1].id != rows[i].id);
        assert forall|j: int| i < j < earlier.len() implies (#[trigger] earlier[j]).id
            != earlier[i].id by {
            assert(rows[j].id != rows[i].id);
        }
        lemma_latest_is(earlier, i);
    }
}

proof fn lemma_latest_of_none(rows: Seq<RowView>, id: Seq<char>)
    requires
        !ids_of(rows).contains(id),
    ensures
        latest(rows, id) is None,
    decreases rows.len(),
{
    if rows.len() > 0 {
        lemma_ids_pushed(rows);
        lemma_latest_of_none(rows.drop_last(), id);
    }
}

/// Synchronizing again from a host where nothing changed inserts nothing: every
/// memory that was stored is updated, the store stays as it is, and what failed
/// fails again.
pub proof fn rerun_inserts_nothing(all: Seq<JsonView>, store: Store)
    requires
        all.len() <= usize::MAX,
    ensures
        ({
            let first = sync_run(all, store);
            let again = sync_run(all, first.store);
            &&& again.store == first.store
            &&& again.failed == first.failed
            &&& again.result.inserted == 0
            &&& again.result.updated == storable(all)
            &&& again.result.processed == storable(all)
        }),
{
    sync_ends_at_a_memory_without_id(all, store);
    let first = sync_run(all, store);
    sync_ends_at_a_memory_without_id(all, first.store);
    lemma_stored_again(store, rows_before_failure(all));
}

/// A synchronization counts every memory that it stores once, and as new exactly
/// once for each identifier that the store did not have. Afterwards the store has
/// the identifiers it had and those of the memories; of memories with the same
/// identifier it has the last one; and its other rows are as they were.
pub proof fn every_memory_is_stored(all: Seq<JsonView>, store: Store)
    requires
        all.len() <= usize::MAX,
    ensures
        ({
            let outcome = sync_run(all, store);
            let rows = rows_before_failure(all);
            &&& outcome.result.processed == rows.len()
            &&& rows.len() == storable(all)
            &&& adds_up(outcome.result)
            &&& new_ids(store, rows).finite()
            &&& outcome.result.inserted == new_ids(store, rows).len()
            &&& outcome.store.dom() == store.dom().union(ids_of(rows))
            &&& forall|i: int|
                #![trigger rows[i]]
                0 <= i < rows.len() && (forall|j: int|
                    i < j < rows.len() ==> (#[trigger] rows[j]).id != rows[i].id)
                    ==> outcome.store[rows[i].id] == rows[i]
            &&& forall|id: Seq<char>|
                #![trigger outcome.store[id]]
                store.dom().contains(id) && !ids_of(rows).contains(id) ==> outcome.store[id]
                    == store[id]
        }),
{
    sync_ends_at_a_memory_without_id(all, store);
    let outcome = sync_run(all, store);
    let rows = rows_before_failure(all);
    lemma_rows_are_counted(store, rows);
    assert forall|i: int|
        #![trigger rows[i]]
        0 <= i < rows.len() && (forall|j: int|
            i < j < rows.len() ==> (#[trigger] rows[j]).id != rows[i].id) implies outcome.store[
    rows[i].id] == rows[i] by {
        lemma_latest_is(rows, i);
        lemma_stored_latest(store, nothing_done(), rows, rows[i].id);
    }
    assert forall|id: Seq<char>|
        #![trigger outcome.store[id]]
        store.dom().contains(id) && !ids_of(rows).contains(id) implies outcome.store[id]
        == store[id] by {
        lemma_latest_of_none(rows, id);
        lemma_stored_latest(store, nothing_done(), rows, id);
    }
}

/// A memory is stored with all its fields, as they are. It is stored exactly if it
/// says what its identifier is. The content is what it says under `content`, the
/// category what it says under `category`, the time what it says under
/// `created_at`, or without that under `createdAt`: a text without the white space
/// around it. Only where the member is missing, blank or composite is the category
/// `facts`, and are the others empty. The memory itself is kept as JSON text.
pub proof fn memory_keeps_its_fields(memory: JsonView)
    ensures
        row_of(memory) is Some <==> says_something(member(memory, "id"@)),
        row_of(memory) is Some ==> ({
            let row = row_of(memory)->0;
            &&& row.id == said(member(memory, "id"@), Seq::empty())
            &&& row.content == said(member(memory, "content"@), Seq::empty())
            &&& row.category == said(member(memory, "category"@), "facts"@)
            &&& row.created_at == said(
                first_of(memory, "created_at"@, "createdAt"@, "createdAt"@),
                Seq::empty(),
            )
            &&& row.raw_json == json_compact(memory)
        }),
        member(memory, "id"@) matches Some(JsonView::Text(s)) ==> (row_of(memory) is Some
            <==> trimmed(s).len() > 0) && (row_of(memory) is Some ==> row_of(memory)->0.id
            == trimmed(s)),
        row_of(memory) is Some ==> (member(memory, "category"@) matches Some(JsonView::Text(s))
            ==> trimmed(s).len() > 0 ==> row_of(memory)->0.category == trimmed(s)),
        row_of(memory) is Some ==> (member(memory, "category"@) matches Some(JsonView::Text(s))
            ==> trimmed(s).len() == 0 ==> row_of(memory)->0.category == "facts"@),
        row_of(memory) is Some ==> (member(memory, "content"@) matches Some(JsonView::Text(s))
            ==> row_of(memory)->0.content == trimmed(s)),
        row_of(memory) is Some ==> (member(memory, "created_at"@) matches Some(JsonView::Text(s))
            ==> row_of(memory)->0.created_at == trimmed(s)),
        row_of(memory) is Some && member(memory, "created_at"@) is None ==> (member(
            memory,
            "createdAt"@,
        ) matches Some(JsonView::Text(s)) ==> row_of(memory)->0.created_at == trimmed(s)),
        row_of(memory) is Some && (member(memory, "category"@) is None || member(
            memory,
            "category"@,
        )->0 is Null || member(memory, "category"@)->0 is Array || member(
            memory,
            "category"@,
        )->0 is Object) ==> row_of(memory)->0.category == "facts"@,
{
    members_are_read_by_name(memory, "id"@, "id"@, "id"@, Seq::empty());
    members_are_read_by_name(memory, "content"@, "id"@, "id"@, Seq::empty());
    members_are_read_by_name(memory, "category"@, "id"@, "id"@, "facts"@);
    members_are_read_by_name(memory, "created_at"@, "createdAt"@, "createdAt"@, Seq::empty());
    if row_of(memory) is Some {
        if let Some(JsonView::Text(s)) = member(memory, "content"@) {
            if trimmed(s).len() == 0 {
                assert(trimmed(s) =~= Seq::empty());
            }
        }
        if let Some(JsonView::Text(s)) = first_of(
            memory,
            "created_at"@,
            "createdAt"@,
            "createdAt"@,
        ) {
            if trimmed(s).len() == 0 {
                assert(trimmed(s) =~= Seq::empty());
            }
        }
    }
}

/// The rows of a page are those of its memories, each in its place, up to the
/// first memory without an identifier; a page whose memories all have one gives
/// all of them.
pub proof fn page_gives_every_row(memories: Seq<JsonView>)
    ensures
        ({
            let rows = rows_before_failure(memories);
            let n = rows.len() as int;
            &&& n <= memories.len()
            &&& n == storable(memories)
            &&& forall|i: int|
                0 <= i < n ==> row_of(memories[i]) is Some && #[trigger] rows[i] == row_of(
                    memories[i],
                )->0
            &&& n < memories.len() ==> row_of(memories[n]) is None
        }),
{
    lemma_storable(memories);
}

/// Lists of rows have each in its place, and a row in the model is the row.
pub proof fn rows_are_kept(row: MemoryRow, rows: Seq<MemoryRow>, memories: Seq<JsonView>)
    ensures
        row@.id == row.id@,
        row@.content == row.content@,
        row@.category == row.category@,
        row@.created_at == row.created_at@,
        row@.raw_json == row.raw_json@,
        row_views(rows).len() == rows.len(),
        forall|i: int| 0 <= i < rows.len() ==> #[trigger] row_views(rows)[i] == rows[i]@,
        rows_of(memories).len() == memories.len(),
        forall|i: int|
            0 <= i < memories.len() && row_of(memories[i]) is Some ==> #[trigger] rows_of(
                memories,
            )[i] == row_of(memories[i])->0,
{
}

/// A page is asked for with a limit of a hundred and its offset, from the host, with
/// the key; a page of a hundred memories or more is followed by another.
pub proof fn pages_are_asked_for_in_turn(host: Seq<char>, api_key: Seq<char>, offset: usize, n: int)
    ensures
        ({
            let r = page_request(host, api_key, offset);
            &&& r.method == Method::Get
            &&& r.url == joined(host, "/v1/memories"@)
            &&& r.bearer == api_key
            &&& r.body is Empty
            &&& r.query.len() == 2
            &&& r.query[0] == ("limit"@, 100usize)
            &&& r.query[1] == ("offset"@, offset)
        }),
        more_pages(n) <==> n >= 100,
{
}

/// Each row that is stored is counted once, as new or as known, and the total stays.
pub proof fn rows_are_counted_one_by_one(result: SyncResult, inserted: bool)
    requires
        adds_up(result),
        result.processed < usize::MAX,
    ensures
        ({
            let after = counted(result, inserted);
            &&& after.processed == result.processed + 1
            &&& inserted ==> after.inserted == result.inserted + 1 && after.updated
                == result.updated
            &&& !inserted ==> after.updated == result.updated + 1 && after.inserted
                == result.inserted
            &&& after.total == result.total
            &&& after.inserted + after.updated == after.processed
        }),
        nothing_done().processed == 0 && nothing_done().inserted == 0 && nothing_done().updated == 0,
        nothing_done().total is None,
{
}

/// The counts add up exactly if every row was new or known.
pub proof fn counts_are_of_new_and_known_rows(result: SyncResult)
    ensures
        adds_up(result) <==> result.processed == result.inserted + result.updated,
        adds_up(nothing_done()),
{
}

} // verus!

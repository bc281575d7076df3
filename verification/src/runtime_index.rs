//! The in-memory search index: file records with their parsed content, the
//! search that combines file-name and content hits, and its updates from
//! file-system events.
//!
//! Reading files and writing the persistent content store are the caller's
//! work: an update takes the bytes that were read and hands back the store
//! action to perform.
use vstd::prelude::*;
use vstd::utf8::{decode_utf8, encode_utf8, valid_utf8};
use crate::content_store::{build_snippet, snippet_of, store_extension, ContentDocument};
use crate::indexer::{
    enqueue_fs_event_with_content_gate, entry_action, is_record_of,
    is_text_extension, opt_str, watched_entry, ContentAction, FileIndexRecord, FsEvent,
    IndexerPolicy, ParseQueue,
};
use crate::parsers::{ParserRegistry};
use crate::search::{
    record_matches, search_extension, ascii_key_lowercased, first_n, is_filename_hit, query_key_lowercased, search_file_name_index,
    selected_entries, selected_records, FileNameSearchIndexRecord, SearchHit, SearchQuery,
    HIT_SOURCE_CONTENT,
};
use crate::text::{
    ascii_lowercase, chars_of, contains_chars, contains_seq, lower_chars_of, lower_seq,
    string_of, trim_seq, trim_start_char, trim_start_matches_char,
};

verus! {

// ---------------------------------------------------------------------------
// Types
// ---------------------------------------------------------------------------
#[derive(Debug, Clone, PartialEq, Eq)]
pub struct LocalSearchIndexRecord {
    pub file: FileIndexRecord,
    pub content: Option<String>,
    normalized_content: Option<Vec<char>>,
}

#[derive(Debug, Clone, Copy, PartialEq, Eq, Structural)]
pub struct IndexBuildSummary {
    pub indexed_files: usize,
    pub content_files: usize,
    pub parse_errors: usize,
    pub content_queue_depth: usize,
}

#[derive(Debug)]
pub struct LocalSearchIndex {
    records: Vec<LocalSearchIndexRecord>,
    snippet_radius: usize,
}

/// What the persistent content store is to do after an index update.
#[derive(Debug, Clone, PartialEq, Eq)]
pub enum StoreAction {
    Upsert(ContentDocument),
    Delete(String),
}

pub open spec fn lowered_opt(o: Option<Seq<char>>) -> Option<Seq<char>> {
    match o {
        Some(s) => Some(lower_seq(s)),
        None => None,
    }
}

pub open spec fn string_opt(o: Option<String>) -> Option<Seq<char>> {
    match o {
        Some(s) => Some(s@),
        None => None,
    }
}

impl LocalSearchIndexRecord {
    /// The lowercased content that content search reads.
    pub closed spec fn norm_content(&self) -> Option<Seq<char>> {
        match self.normalized_content {
            Some(v) => Some(v@),
            None => None,
        }
    }

    pub closed spec fn file_of(&self) -> FileIndexRecord {
        self.file
    }

    pub closed spec fn content_of(&self) -> Option<String> {
        self.content
    }

    /// The normalized content is the ASCII-lowercased content.
    pub closed spec fn is_normalized(&self) -> bool {
        self.norm_content() == lowered_opt(string_opt(self.content))
    }

    /// The record of `file` with its parsed `content`.
    pub fn new(file: FileIndexRecord, content: Option<String>) -> (r: Self)
        ensures
            r.file_of() == file,
            r.content_of() == content,
            r.norm_content() == lowered_opt(string_opt(content)),
            r.is_normalized(),
    {
        let normalized_content = match &content {
            Some(value) => Some(lower_chars_of(value.as_str())),
            None => None,
        };
        Self { file, content, normalized_content }
    }
}

/// The number of failed writes among the results of the store writes.
pub open spec fn store_failures(results: Seq<bool>) -> nat
    decreases results.len(),
{
    if results.len() == 0 {
        0
    } else {
        store_failures(results.drop_last()) + if results.last() {
            0nat
        } else {
            1nat
        }
    }
}

impl IndexBuildSummary {
    /// The summary with each failed content-store write counted as a parse
    /// error (the count stops at the largest `usize`).
    pub fn with_store_results(self, results: &Vec<bool>) -> (r: Self)
        ensures
            r.indexed_files == self.indexed_files,
            r.content_files == self.content_files,
            r.content_queue_depth == self.content_queue_depth,
            r.parse_errors == if self.parse_errors + store_failures(results@) > usize::MAX {
                usize::MAX as int
            } else {
                self.parse_errors + store_failures(results@)
            },
    {
        let mut errors = self.parse_errors;
        let mut i: usize = 0;
        while i < results.len()
            invariant
                i <= results@.len(),
                errors == if self.parse_errors + store_failures(results@.take(i as int)) > usize::MAX {
                    usize::MAX as int
                } else {
                    self.parse_errors + store_failures(results@.take(i as int))
                },
            decreases results.len() - i,
        {
            assert(results@.take(i + 1).drop_last() =~= results@.take(i as int));
            if !results[i] {
                errors = errors.saturating_add(1);
            }
            i = i + 1;
        }
        assert(results@.take(results@.len() as int) =~= results@);
        IndexBuildSummary { parse_errors: errors, ..self }
    }
}

impl Default for IndexBuildSummary {
    fn default() -> (r: Self)
        ensures
            r == (IndexBuildSummary {
                indexed_files: 0,
                content_files: 0,
                parse_errors: 0,
                content_queue_depth: 0,
            }),
    {
        IndexBuildSummary { indexed_files: 0, content_files: 0, parse_errors: 0, content_queue_depth: 0 }
    }
}

// ---------------------------------------------------------------------------
// Specifications
// ---------------------------------------------------------------------------
/// The number of records that hold content.
pub open spec fn count_content(records: Seq<LocalSearchIndexRecord>) -> nat
    decreases records.len(),
{
    if records.len() == 0 {
        0
    } else {
        count_content(records.drop_last()) + if records.last().content_of() is Some {
            1nat
        } else {
            0nat
        }
    }
}

/// The file records of the index, in order.
pub open spec fn record_files(records: Seq<LocalSearchIndexRecord>) -> Seq<FileIndexRecord> {
    records.map_values(|r: LocalSearchIndexRecord| r.file_of())
}

/// The lowercased needle of a content search: the `content:` directive
/// when it is not empty, else the plain text, else nothing.
pub open spec fn content_needle(query: SearchQuery) -> Seq<char> {
    if is_content_query(query) {
        lower_seq(query.content->0@)
    } else {
        match query.text {
            Some(t) => lower_seq(t@),
            None => seq![],
        }
    }
}

/// The extension key that content search compares: the record's extension
/// without leading dots, ASCII-lowercased.
pub open spec fn content_record_extension(extension: Seq<char>) -> Seq<char> {
    lower_seq(trim_start_char(extension, '.'))
}

/// Content search selects a record when its extension passes the
/// `ext:` filter and its lowercased content contains the needle.
pub open spec fn content_matches(record: LocalSearchIndexRecord, query: SearchQuery) -> bool {
    &&& (query.extension matches Some(e) ==> content_record_extension(record.file_of().extension@)
        == store_extension(e@))
    &&& (record.content_of() matches Some(c) && contains_seq(lower_seq(c@), content_needle(query)))
}

/// The records that content search selects, in order.
pub open spec fn content_selected(records: Seq<LocalSearchIndexRecord>, query: SearchQuery) -> Seq<
    LocalSearchIndexRecord,
>
    decreases records.len(),
{
    if records.len() == 0 {
        seq![]
    } else {
        let before = content_selected(records.drop_last(), query);
        if content_matches(records.last(), query) {
            before.push(records.last())
        } else {
            before
        }
    }
}

pub open spec fn min_nat(a: nat, b: nat) -> nat {
    if a < b {
        a
    } else {
        b
    }
}

/// `h` is the content hit for `record`: the file's fields, the content
/// source, and the snippet of the content around the needle.
pub open spec fn is_content_hit(h: SearchHit, record: LocalSearchIndexRecord, needle: Seq<char>, radius: nat) -> bool {
    &&& h.physical_path == record.file_of().physical_path
    &&& h.file_name == record.file_of().file_name
    &&& h.extension == record.file_of().extension
    &&& h.modified_at == record.file_of().modified_at
    &&& h.size_bytes == record.file_of().size_bytes
    &&& h.hit_source@ == HIT_SOURCE_CONTENT@
    &&& match record.content_of() {
        Some(c) => h.snippet matches Some(s) && s@ == snippet_of(
            c@,
            needle,
            min_nat(radius, encode_utf8(c@).len()) as int,
        ),
        None => h.snippet is None,
    }
}

/// `hits` are the content hits of `query`: the first `limit` records that it
/// selects, none when its needle is empty.
pub open spec fn are_content_hits(
    hits: Seq<SearchHit>,
    records: Seq<LocalSearchIndexRecord>,
    query: SearchQuery,
    limit: usize,
    radius: nat,
) -> bool {
    if content_needle(query).len() == 0 {
        hits.len() == 0
    } else {
        let sel = first_n(content_selected(records, query), limit as int);
        &&& hits.len() == sel.len()
        &&& forall|i: int|
            0 <= i < hits.len() ==> is_content_hit(
                #[trigger] hits[i],
                sel[i],
                content_needle(query),
                radius,
            )
    }
}

/// `hits` are the file-name hits of `query`: the first `limit` files that it
/// selects.
pub open spec fn are_filename_hits(
    hits: Seq<SearchHit>,
    files: Seq<FileIndexRecord>,
    query: SearchQuery,
    limit: usize,
) -> bool {
    let sel = first_n(selected_records(files, query), limit as int);
    &&& hits.len() == sel.len()
    &&& forall|i: int|
        0 <= i < hits.len() ==> {
            let e = #[trigger] sel[i];
            is_filename_hit(
                hits[i],
                e.physical_path,
                e.file_name,
                e.extension,
                e.modified_at,
                e.size_bytes,
            )
        }
}

/// The first hit in `hits` with this path.
pub open spec fn path_position(hits: Seq<SearchHit>, path: Seq<char>) -> Option<int>
    decreases hits.len(),
{
    if hits.len() == 0 {
        None
    } else if hits[0].physical_path@ == path {
        Some(0)
    } else {
        match path_position(hits.drop_first(), path) {
            Some(i) => Some(i + 1),
            None => None,
        }
    }
}

/// A hit that has no snippet takes the source and snippet of a later hit
/// for the same path that has one.
pub open spec fn absorb(existing: SearchHit, hit: SearchHit) -> SearchHit {
    if existing.snippet is None && hit.snippet is Some {
        SearchHit {
            physical_path: existing.physical_path,
            file_name: existing.file_name,
            extension: existing.extension,
            modified_at: existing.modified_at,
            size_bytes: existing.size_bytes,
            hit_source: hit.hit_source,
            snippet: hit.snippet,
        }
    } else {
        existing
    }
}

/// `secondary` merged into `primary`: a hit for a path already present
/// updates that hit; any other is appended while fewer than `limit` hits
/// are held, and merging stops once `limit` hits are reached.
pub open spec fn merged(primary: Seq<SearchHit>, secondary: Seq<SearchHit>, limit: int) -> Seq<
    SearchHit,
>
    decreases secondary.len(),
{
    if secondary.len() == 0 {
        primary
    } else {
        let hit = secondary[0];
        match path_position(primary, hit.physical_path@) {
            Some(p) => merged(
                primary.update(p, absorb(primary[p], hit)),
                secondary.drop_first(),
                limit,
            ),
            None => if primary.len() >= limit {
                primary
            } else if primary.len() + 1 >= limit {
                primary.push(hit)
            } else {
                merged(primary.push(hit), secondary.drop_first(), limit)
            },
        }
    }
}

/// The query asks for content: its `content:` directive is not empty.
pub open spec fn is_content_query(query: SearchQuery) -> bool {
    query.content matches Some(c) && c@.len() > 0
}

/// The query has plain text to look for.
pub open spec fn has_text(query: SearchQuery) -> bool {
    query.text matches Some(t) && t@.len() > 0
}

/// `hits` are what the index returns for `query`: content hits for a
/// content query; else file-name hits, merged with content hits when the
/// query has plain text.
pub open spec fn are_search_hits(
    hits: Seq<SearchHit>,
    records: Seq<LocalSearchIndexRecord>,
    radius: nat,
    query: SearchQuery,
    limit: usize,
) -> bool {
    if is_content_query(query) {
        are_content_hits(hits, records, query, limit, radius)
    } else if !has_text(query) {
        are_filename_hits(hits, record_files(records), query, limit)
    } else {
        exists|names: Seq<SearchHit>, contents: Seq<SearchHit>|
            {
                &&& are_filename_hits(names, record_files(records), query, limit)
                &&& are_content_hits(contents, records, query, limit, radius)
                &&& hits == merged(names, contents, limit as int)
            }
    }
}

// ---------------------------------------------------------------------------
// Lemmas
// ---------------------------------------------------------------------------
proof fn lemma_content_selected_prefix(records: Seq<LocalSearchIndexRecord>, query: SearchQuery, i: int)
    requires
        0 <= i <= records.len(),
    ensures
        content_selected(records.take(i), query).len() <= content_selected(records, query).len(),
        content_selected(records.take(i), query) == content_selected(records, query).take(
            content_selected(records.take(i), query).len() as int,
        ),
    decreases records.len() - i,
{
    if i == records.len() {
        assert(records.take(i) =~= records);
        let s = content_selected(records, query);
        assert(s.take(s.len() as int) =~= s);
    } else {
        lemma_content_selected_prefix(records, query, i + 1);
        assert(records.take(i + 1).drop_last() =~= records.take(i));
        let a = content_selected(records.take(i), query);
        let b = content_selected(records.take(i + 1), query);
        let s = content_selected(records, query);
        assert(b.take(a.len() as int) =~= a);
        assert(b.take(a.len() as int) =~= s.take(a.len() as int));
    }
}

proof fn lemma_path_position(hits: Seq<SearchHit>, path: Seq<char>)
    ensures
        path_position(hits, path) matches Some(p) ==> 0 <= p < hits.len() && hits[p].physical_path@
            == path && forall|j: int| 0 <= j < p ==> hits[j].physical_path@ != path,
        path_position(hits, path) is None ==> forall|j: int|
            0 <= j < hits.len() ==> hits[j].physical_path@ != path,
    decreases hits.len(),
{
    if hits.len() > 0 && hits[0].physical_path@ != path {
        lemma_path_position(hits.drop_first(), path);
        assert forall|j: int| 1 <= j < hits.len() implies hits[j] == hits.drop_first()[j - 1] by {}
    }
}

/// No two hits share a path.
pub open spec fn distinct_paths(hits: Seq<SearchHit>) -> bool {
    forall|i: int, j: int|
        0 <= i < j < hits.len() ==> #[trigger] hits[i].physical_path@ != #[trigger] hits[j].physical_path@
}

/// Merging content hits into file-name hits keeps every file-name hit in its
/// place and in its order, and lists no path twice when the file-name hits
/// list none twice.
pub proof fn law_merge_keeps_names_first_and_paths_unique(
    names: Seq<SearchHit>,
    contents: Seq<SearchHit>,
    limit: int,
)
    requires
        distinct_paths(names),
    ensures
        merged(names, contents, limit).len() >= names.len(),
        forall|i: int|
            0 <= i < names.len() ==> #[trigger] merged(names, contents, limit)[i].physical_path
                == names[i].physical_path,
        distinct_paths(merged(names, contents, limit)),
    decreases contents.len(),
{
    if contents.len() > 0 {
        let hit = contents[0];
        lemma_path_position(names, hit.physical_path@);
        match path_position(names, hit.physical_path@) {
            Some(p) => {
                let next = names.update(p, absorb(names[p], hit));
                assert forall|i: int| 0 <= i < next.len() implies #[trigger] next[i].physical_path
                    == names[i].physical_path by {}
                law_merge_keeps_names_first_and_paths_unique(next, contents.drop_first(), limit);
            },
            None => {
                let next = names.push(hit);
                assert(names.len() < limit ==> distinct_paths(next)) by {
                    assert forall|i: int, j: int|
                        0 <= i < j < next.len() implies #[trigger] next[i].physical_path@
                        != #[trigger] next[j].physical_path@ by {
                        if j == names.len() {
                            assert(names[i].physical_path@ != hit.physical_path@);
                        } else {
                            assert(names[i].physical_path@ != names[j].physical_path@);
                        }
                    }
                }
                if names.len() + 1 < limit {
                    law_merge_keeps_names_first_and_paths_unique(next, contents.drop_first(), limit);
                    assert forall|i: int| 0 <= i < names.len() implies #[trigger] merged(
                        names,
                        contents,
                        limit,
                    )[i].physical_path == names[i].physical_path by {
                        assert(merged(next, contents.drop_first(), limit)[i].physical_path
                            == next[i].physical_path);
                    }
                }
            },
        }
    }
}

/// No two file records share a path.
pub open spec fn distinct_file_paths(files: Seq<FileIndexRecord>) -> bool {
    forall|i: int, j: int|
        0 <= i < j < files.len() ==> #[trigger] files[i].physical_path@ != #[trigger] files[j].physical_path@
}

proof fn lemma_selected_records_distinct(files: Seq<FileIndexRecord>, query: SearchQuery)
    ensures
        forall|k: int|
            0 <= k < selected_records(files, query).len() ==> files.contains(
                #[trigger] selected_records(files, query)[k],
            ),
        distinct_file_paths(files) ==> distinct_file_paths(selected_records(files, query)),
    decreases files.len(),
{
    if files.len() > 0 {
        let init = files.drop_last();
        lemma_selected_records_distinct(init, query);
        let before = selected_records(init, query);
        let sel = selected_records(files, query);
        assert forall|k: int| 0 <= k < before.len() implies files.contains(#[trigger] before[k]) by {
            let m = choose|m: int| 0 <= m < init.len() && init[m] == before[k];
            assert(files[m] == before[k]);
        }
        assert forall|k: int| 0 <= k < sel.len() implies files.contains(#[trigger] sel[k]) by {
            if k < before.len() {
                assert(sel[k] == before[k]);
            } else {
                assert(sel[k] == files[files.len() - 1]);
            }
        }
        if distinct_file_paths(files) {
            assert forall|i: int, j: int|
                0 <= i < j < init.len() implies #[trigger] init[i].physical_path@
                != #[trigger] init[j].physical_path@ by {
                assert(files[i] == init[i] && files[j] == init[j]);
            }
            assert forall|i: int, j: int|
                0 <= i < j < sel.len() implies #[trigger] sel[i].physical_path@
                != #[trigger] sel[j].physical_path@ by {
                if j < before.len() {
                    assert(sel[i] == before[i] && sel[j] == before[j]);
                } else {
                    assert(sel[i] == before[i]);
                    let m = choose|m: int| 0 <= m < init.len() && init[m] == before[i];
                    assert(files[m] == before[i]);
                    assert(sel[j] == files[files.len() - 1]);
                }
            }
        }
    }
}

proof fn lemma_content_selected_distinct(records: Seq<LocalSearchIndexRecord>, query: SearchQuery)
    ensures
        forall|k: int|
            0 <= k < content_selected(records, query).len() ==> records.contains(
                #[trigger] content_selected(records, query)[k],
            ),
        distinct_record_paths(records) ==> distinct_record_paths(content_selected(records, query)),
    decreases records.len(),
{
    if records.len() > 0 {
        let init = records.drop_last();
        lemma_content_selected_distinct(init, query);
        let before = content_selected(init, query);
        let sel = content_selected(records, query);
        assert forall|k: int| 0 <= k < before.len() implies records.contains(#[trigger] before[k]) by {
            let m = choose|m: int| 0 <= m < init.len() && init[m] == before[k];
            assert(records[m] == before[k]);
        }
        assert forall|k: int| 0 <= k < sel.len() implies records.contains(#[trigger] sel[k]) by {
            if k < before.len() {
                assert(sel[k] == before[k]);
            } else {
                assert(sel[k] == records[records.len() - 1]);
            }
        }
        if distinct_record_paths(records) {
            assert forall|i: int, j: int|
                0 <= i < j < init.len() implies #[trigger] init[i].file_of().physical_path@
                != #[trigger] init[j].file_of().physical_path@ by {
                assert(records[i] == init[i] && records[j] == init[j]);
            }
            assert forall|i: int, j: int|
                0 <= i < j < sel.len() implies #[trigger] sel[i].file_of().physical_path@
                != #[trigger] sel[j].file_of().physical_path@ by {
                if j < before.len() {
                    assert(sel[i] == before[i] && sel[j] == before[j]);
                } else {
                    assert(sel[i] == before[i]);
                    let m = choose|m: int| 0 <= m < init.len() && init[m] == before[i];
                    assert(records[m] == before[i]);
                    assert(sel[j] == records[records.len() - 1]);
                }
            }
        }
    }
}

/// Merging never grows the hits past `limit`: it holds at most the larger
/// of `limit` and the number of file-name hits, and never more than both
/// lists together.
pub proof fn law_merge_respects_limit(names: Seq<SearchHit>, contents: Seq<SearchHit>, limit: int)
    ensures
        merged(names, contents, limit).len() <= names.len() + contents.len(),
        names.len() <= limit ==> merged(names, contents, limit).len() <= limit,
        names.len() >= limit ==> merged(names, contents, limit).len() == names.len(),
    decreases contents.len(),
{
    if contents.len() > 0 {
        let hit = contents[0];
        match path_position(names, hit.physical_path@) {
            Some(p) => {
                lemma_path_position(names, hit.physical_path@);
                law_merge_respects_limit(names.update(p, absorb(names[p], hit)), contents.drop_first(), limit);
            },
            None => {
                if names.len() + 1 < limit {
                    law_merge_respects_limit(names.push(hit), contents.drop_first(), limit);
                }
            },
        }
    }
}

/// When the records list each path once, so do the hits of any search.
pub proof fn law_search_lists_each_path_once(
    records: Seq<LocalSearchIndexRecord>,
    radius: nat,
    query: SearchQuery,
    limit: usize,
    hits: Seq<SearchHit>,
)
    requires
        distinct_record_paths(records),
        are_search_hits(hits, records, radius, query, limit),
    ensures
        distinct_paths(hits),
{
    let files = record_files(records);
    assert(distinct_file_paths(files)) by {
        assert forall|i: int, j: int|
            0 <= i < j < files.len() implies #[trigger] files[i].physical_path@
            != #[trigger] files[j].physical_path@ by {
            assert(files[i] == records[i].file_of() && files[j] == records[j].file_of());
        }
    }
    lemma_selected_records_distinct(files, query);
    lemma_content_selected_distinct(records, query);
    let fsel = first_n(selected_records(files, query), limit as int);
    let csel = first_n(content_selected(records, query), limit as int);
    assert forall|i: int| 0 <= i < fsel.len() implies #[trigger] fsel[i] == selected_records(files, query)[i] by {}
    assert forall|i: int| 0 <= i < csel.len() implies #[trigger] csel[i] == content_selected(records, query)[i] by {}
    if is_content_query(query) {
        if content_needle(query).len() > 0 {
            assert forall|i: int, j: int|
                0 <= i < j < hits.len() implies #[trigger] hits[i].physical_path@
                != #[trigger] hits[j].physical_path@ by {
                assert(is_content_hit(hits[i], csel[i], content_needle(query), radius));
                assert(is_content_hit(hits[j], csel[j], content_needle(query), radius));
            }
        }
    } else if !has_text(query) {
        assert forall|i: int, j: int|
            0 <= i < j < hits.len() implies #[trigger] hits[i].physical_path@
            != #[trigger] hits[j].physical_path@ by {
            assert(hits[i].physical_path == fsel[i].physical_path);
            assert(hits[j].physical_path == fsel[j].physical_path);
        }
    } else {
        let (names, contents) = choose|names: Seq<SearchHit>, contents: Seq<SearchHit>|
            {
                &&& are_filename_hits(names, files, query, limit)
                &&& are_content_hits(contents, records, query, limit, radius)
                &&& hits == merged(names, contents, limit as int)
            };
        assert forall|i: int, j: int|
            0 <= i < j < names.len() implies #[trigger] names[i].physical_path@
            != #[trigger] names[j].physical_path@ by {
            assert(names[i].physical_path == fsel[i].physical_path);
            assert(names[j].physical_path == fsel[j].physical_path);
        }
        law_merge_keeps_names_first_and_paths_unique(names, contents, limit as int);
    }
}

/// Every content hit is marked as a content hit and carries a snippet of
/// its record's content, which contains the needle; there are at most
/// `limit` of them.
pub proof fn law_content_hits_carry_snippets(
    hits: Seq<SearchHit>,
    records: Seq<LocalSearchIndexRecord>,
    query: SearchQuery,
    limit: usize,
    radius: nat,
)
    requires
        are_content_hits(hits, records, query, limit, radius),
    ensures
        hits.len() <= limit,
        forall|i: int|
            0 <= i < hits.len() ==> (#[trigger] hits[i]).snippet is Some && hits[i].hit_source@
                == HIT_SOURCE_CONTENT@,
        forall|i: int|
            #![trigger hits[i]]
            0 <= i < hits.len() ==> exists|k: int|
                #![trigger records[k]]
                0 <= k < records.len() && records[k].file_of().physical_path == hits[i].physical_path
                    && content_matches(records[k], query),
{
    if content_needle(query).len() > 0 {
        let sel = first_n(content_selected(records, query), limit as int);
        lemma_content_selected_distinct(records, query);
        lemma_content_selected_matches(records, query);
        assert forall|i: int| 0 <= i < hits.len() implies (#[trigger] hits[i]).snippet is Some
            && hits[i].hit_source@ == HIT_SOURCE_CONTENT@ by {
            assert(sel[i] == content_selected(records, query)[i]);
            assert(content_matches(sel[i], query));
            assert(is_content_hit(hits[i], sel[i], content_needle(query), radius));
        }
        assert forall|i: int| #![trigger hits[i]] 0 <= i < hits.len() implies exists|k: int|
            #![trigger records[k]]
            0 <= k < records.len() && records[k].file_of().physical_path == hits[i].physical_path
                && content_matches(records[k], query) by {
            assert(sel[i] == content_selected(records, query)[i]);
            assert(records.contains(sel[i]));
            let k = choose|k: int| 0 <= k < records.len() && records[k] == sel[i];
            assert(is_content_hit(hits[i], sel[i], content_needle(query), radius));
            assert(records[k].file_of().physical_path == hits[i].physical_path);
        }
    }
}

proof fn lemma_content_selected_matches(records: Seq<LocalSearchIndexRecord>, query: SearchQuery)
    ensures
        forall|k: int|
            0 <= k < content_selected(records, query).len() ==> content_matches(
                #[trigger] content_selected(records, query)[k],
                query,
            ),
    decreases records.len(),
{
    if records.len() > 0 {
        lemma_content_selected_matches(records.drop_last(), query);
        let before = content_selected(records.drop_last(), query);
        assert forall|k: int| 0 <= k < content_selected(records, query).len() implies content_matches(
            #[trigger] content_selected(records, query)[k],
            query,
        ) by {
            if k < before.len() {
                assert(content_selected(records, query)[k] == before[k]);
            }
        }
    }
}

/// An index whose records hold no content answers no content query.
pub proof fn law_no_content_no_content_hits(
    records: Seq<LocalSearchIndexRecord>,
    query: SearchQuery,
    limit: usize,
    radius: nat,
    hits: Seq<SearchHit>,
)
    requires
        forall|k: int| 0 <= k < records.len() ==> (#[trigger] records[k]).content_of() is None,
        are_content_hits(hits, records, query, limit, radius),
    ensures
        hits.len() == 0,
{
    lemma_no_content_selected(records, query);
}

proof fn lemma_no_content_selected(records: Seq<LocalSearchIndexRecord>, query: SearchQuery)
    requires
        forall|k: int| 0 <= k < records.len() ==> (#[trigger] records[k]).content_of() is None,
    ensures
        content_selected(records, query).len() == 0,
    decreases records.len(),
{
    if records.len() > 0 {
        let init = records.drop_last();
        assert forall|k: int| 0 <= k < init.len() implies (#[trigger] init[k]).content_of() is None by {
            assert(init[k] == records[k]);
        }
        lemma_no_content_selected(init, query);
        assert(records.last().content_of() is None);
    }
}

/// The file passes the file-name filters of `query`, read directly off the
/// file: its name contains the `name:` text, its name or path contains the
/// plain text (both up to ASCII case), and its extension key is the `ext:`
/// key.
pub open spec fn passes_file_filters(file: FileIndexRecord, query: SearchQuery) -> bool {
    &&& (query.name matches Some(n) ==> contains_seq(lower_seq(file.file_name@), lower_seq(n@)))
    &&& (query.text matches Some(t) ==> contains_seq(lower_seq(file.file_name@), lower_seq(t@))
        || contains_seq(lower_seq(file.physical_path@), lower_seq(t@)))
    &&& (query.extension matches Some(e) ==> search_extension(file.extension@) == search_extension(
        e@,
    ))
}

/// The text that a content search looks for: the `content:` text when it is
/// not empty, else the plain text.
pub open spec fn content_search_text(query: SearchQuery) -> Seq<char> {
    if query.content matches Some(c) && c@.len() > 0 {
        query.content->0@
    } else {
        match query.text {
            Some(t) => t@,
            None => seq![],
        }
    }
}

/// The record passes the content filters of `query`: its extension without
/// leading dots is the `ext:` key up to ASCII case, and its content contains
/// the searched text up to ASCII case.
pub open spec fn passes_content_filters(record: LocalSearchIndexRecord, query: SearchQuery) -> bool {
    &&& (query.extension matches Some(e) ==> lower_seq(trim_start_char(record.file_of().extension@, '.'))
        == lower_seq(trim_start_char(trim_seq(e@), '.')))
    &&& (record.content_of() matches Some(c) && contains_seq(
        lower_seq(c@),
        lower_seq(content_search_text(query)),
    ))
}

proof fn lemma_selected_records_complete(files: Seq<FileIndexRecord>, query: SearchQuery)
    ensures
        forall|k: int|
            0 <= k < files.len() && record_matches(files[k], query) ==> selected_records(
                files,
                query,
            ).contains(#[trigger] files[k]),
        forall|k: int|
            0 <= k < selected_records(files, query).len() ==> record_matches(
                #[trigger] selected_records(files, query)[k],
                query,
            ),
    decreases files.len(),
{
    if files.len() > 0 {
        let init = files.drop_last();
        lemma_selected_records_complete(init, query);
        let before = selected_records(init, query);
        let sel = selected_records(files, query);
        assert forall|k: int| 0 <= k < files.len() && record_matches(files[k], query) implies sel.contains(
            #[trigger] files[k],
        ) by {
            if k < init.len() {
                assert(init[k] == files[k]);
                let m = choose|m: int| 0 <= m < before.len() && before[m] == init[k];
                assert(sel[m] == before[m]);
            } else {
                assert(sel[sel.len() - 1] == files[k]);
            }
        }
        assert forall|k: int| 0 <= k < sel.len() implies record_matches(#[trigger] sel[k], query) by {
            if k < before.len() {
                assert(sel[k] == before[k]);
            }
        }
    }
}

proof fn lemma_content_selected_complete(records: Seq<LocalSearchIndexRecord>, query: SearchQuery)
    ensures
        forall|k: int|
            0 <= k < records.len() && content_matches(records[k], query) ==> content_selected(
                records,
                query,
            ).contains(#[trigger] records[k]),
    decreases records.len(),
{
    if records.len() > 0 {
        let init = records.drop_last();
        lemma_content_selected_complete(init, query);
        let before = content_selected(init, query);
        let sel = content_selected(records, query);
        assert forall|k: int| 0 <= k < records.len() && content_matches(records[k], query) implies sel.contains(
            #[trigger] records[k],
        ) by {
            if k < init.len() {
                assert(init[k] == records[k]);
                let m = choose|m: int| 0 <= m < before.len() && before[m] == init[k];
                assert(sel[m] == before[m]);
            } else {
                assert(sel[sel.len() - 1] == records[k]);
            }
        }
    }
}

/// File-name search returns files that pass every filter, read directly off
/// the file, in the order of the files; when fewer than `limit` hits come
/// back, every file that passes the filters is among them.
pub proof fn law_file_name_hits_pass_filters(
    hits: Seq<SearchHit>,
    files: Seq<FileIndexRecord>,
    query: SearchQuery,
    limit: usize,
)
    requires
        are_filename_hits(hits, files, query, limit),
    ensures
        forall|i: int|
            #![trigger hits[i]]
            0 <= i < hits.len() ==> exists|k: int|
                #![trigger files[k]]
                0 <= k < files.len() && files[k].physical_path == hits[i].physical_path
                    && files[k].file_name == hits[i].file_name && passes_file_filters(files[k], query),
        hits.len() < limit ==> forall|k: int|
            #![trigger files[k]]
            0 <= k < files.len() && passes_file_filters(files[k], query) ==> exists|i: int|
                #![trigger hits[i]]
                0 <= i < hits.len() && hits[i].physical_path == files[k].physical_path,
{
    lemma_selected_records_complete(files, query);
    lemma_selected_records_distinct(files, query);
    let all = selected_records(files, query);
    let sel = first_n(all, limit as int);
    assert forall|i: int| #![trigger hits[i]] 0 <= i < hits.len() implies exists|k: int|
        #![trigger files[k]]
        0 <= k < files.len() && files[k].physical_path == hits[i].physical_path
            && files[k].file_name == hits[i].file_name && passes_file_filters(files[k], query) by {
        assert(sel[i] == all[i]);
        assert(record_matches(all[i], query));
        assert(files.contains(all[i]));
        let k = choose|k: int| 0 <= k < files.len() && files[k] == all[i];
        assert(files[k].physical_path == hits[i].physical_path);
    }
    if hits.len() < limit {
        assert(sel == all);
        assert forall|k: int|
            #![trigger files[k]]
            0 <= k < files.len() && passes_file_filters(files[k], query) implies exists|i: int|
                #![trigger hits[i]]
                0 <= i < hits.len() && hits[i].physical_path == files[k].physical_path by {
            assert(record_matches(files[k], query));
            assert(all.contains(files[k]));
            let i = choose|i: int| 0 <= i < all.len() && all[i] == files[k];
            assert(hits[i].physical_path == sel[i].physical_path);
        }
    }
}

/// Content search returns content hits, with snippets, of records that pass
/// the content filters read directly off the record (extension key and
/// content, both up to ASCII case), in the order of the records; when the
/// searched text is not empty and fewer than `limit` hits come back, every
/// record that passes the filters is among them.
pub proof fn law_content_hits_pass_filters(
    hits: Seq<SearchHit>,
    records: Seq<LocalSearchIndexRecord>,
    query: SearchQuery,
    limit: usize,
    radius: nat,
)
    requires
        are_content_hits(hits, records, query, limit, radius),
    ensures
        forall|i: int|
            #![trigger hits[i]]
            0 <= i < hits.len() ==> hits[i].hit_source@ == HIT_SOURCE_CONTENT@ && hits[i].snippet is Some
                && exists|k: int|
                #![trigger records[k]]
                0 <= k < records.len() && records[k].file_of().physical_path == hits[i].physical_path
                    && passes_content_filters(records[k], query),
        content_search_text(query).len() > 0 && hits.len() < limit ==> forall|k: int|
            #![trigger records[k]]
            0 <= k < records.len() && passes_content_filters(records[k], query) ==> exists|i: int|
                #![trigger hits[i]]
                0 <= i < hits.len() && hits[i].physical_path == records[k].file_of().physical_path,
{
    assert(content_needle(query) == lower_seq(content_search_text(query)));
    assert forall|r: LocalSearchIndexRecord| #[trigger] content_matches(r, query) == passes_content_filters(
        r,
        query,
    ) by {}
    if content_needle(query).len() > 0 {
        lemma_content_selected_complete(records, query);
        lemma_content_selected_distinct(records, query);
        lemma_content_selected_matches(records, query);
        let all = content_selected(records, query);
        let sel = first_n(all, limit as int);
        assert forall|i: int| #![trigger hits[i]] 0 <= i < hits.len() implies hits[i].hit_source@
            == HIT_SOURCE_CONTENT@ && hits[i].snippet is Some && exists|k: int|
            #![trigger records[k]]
            0 <= k < records.len() && records[k].file_of().physical_path == hits[i].physical_path
                && passes_content_filters(records[k], query) by {
            assert(sel[i] == all[i]);
            assert(content_matches(all[i], query));
            assert(is_content_hit(hits[i], sel[i], content_needle(query), radius));
            assert(records.contains(all[i]));
            let k = choose|k: int| 0 <= k < records.len() && records[k] == all[i];
            assert(records[k].file_of().physical_path == hits[i].physical_path);
        }
        if hits.len() < limit {
            assert(sel == all);
            assert forall|k: int|
                #![trigger records[k]]
                0 <= k < records.len() && passes_content_filters(records[k], query) implies exists|i: int|
                    #![trigger hits[i]]
                    0 <= i < hits.len() && hits[i].physical_path == records[k].file_of().physical_path by {
                assert(content_matches(records[k], query));
                assert(all.contains(records[k]));
                let i = choose|i: int| 0 <= i < all.len() && all[i] == records[k];
                assert(is_content_hit(hits[i], sel[i], content_needle(query), radius));
            }
        }
    }
}

/// A search returns at most `limit` hits.
pub proof fn law_search_respects_limit(
    records: Seq<LocalSearchIndexRecord>,
    radius: nat,
    query: SearchQuery,
    limit: usize,
    hits: Seq<SearchHit>,
)
    requires
        are_search_hits(hits, records, radius, query, limit),
    ensures
        hits.len() <= limit,
{
    if !is_content_query(query) && has_text(query) {
        let (names, contents) = choose|names: Seq<SearchHit>, contents: Seq<SearchHit>|
            {
                &&& are_filename_hits(names, record_files(records), query, limit)
                &&& are_content_hits(contents, records, query, limit, radius)
                &&& hits == merged(names, contents, limit as int)
            };
        law_merge_respects_limit(names, contents, limit as int);
    }
}

// ---------------------------------------------------------------------------
// Search
// ---------------------------------------------------------------------------
fn path_index(hits: &Vec<SearchHit>, path: &String) -> (r: Option<usize>)
    ensures
        opt_usize_int(r) == path_position(hits@, path@),
{
    let mut i: usize = 0;
    assert(hits@.skip(0) =~= hits@);
    assert(shift(path_position(hits@, path@), 0) == path_position(hits@, path@));
    while i < hits.len()
        invariant
            i <= hits@.len(),
            path_position(hits@, path@) == shift(path_position(hits@.skip(i as int), path@), i as int),
        decreases hits.len() - i,
    {
        assert(hits@.skip(i as int).drop_first() =~= hits@.skip(i + 1));
        assert(hits@.skip(i as int)[0] == hits@[i as int]);
        let same = hits[i].physical_path == *path;
        if same {
            return Some(i);
        }
        i = i + 1;
    }
    None
}

pub open spec fn opt_usize_int(o: Option<usize>) -> Option<int> {
    match o {
        Some(i) => Some(i as int),
        None => None,
    }
}

pub open spec fn shift(o: Option<int>, k: int) -> Option<int> {
    match o {
        Some(i) => Some(i + k),
        None => None,
    }
}

/// Merges content hits into file-name hits: a hit for a path already
/// present only fills in a missing snippet; new paths are appended until
/// `limit` hits are reached.
fn merge_hits(names: Vec<SearchHit>, secondary: Vec<SearchHit>, limit: usize) -> (r: Vec<
    SearchHit,
>)
    ensures
        r@ == merged(names@, secondary@, limit as int),
{
    let mut primary = names;
    let ghost initial = primary@;
    let mut i: usize = 0;
    assert(secondary@.skip(0) =~= secondary@);
    while i < secondary.len()
        invariant
            i <= secondary@.len(),
            initial == names@,
            merged(initial, secondary@, limit as int) == merged(
                primary@,
                secondary@.skip(i as int),
                limit as int,
            ),
        decreases secondary.len() - i,
    {
        let hit = secondary[i].clone_hit();
        assert(secondary@.skip(i as int)[0] == hit);
        assert(secondary@.skip(i as int).drop_first() =~= secondary@.skip(i + 1));
        proof {
            lemma_path_position(primary@, hit.physical_path@);
        }
        match path_index(&primary, &hit.physical_path) {
            Some(existing) => {
                if primary[existing].snippet.is_none() && hit.snippet.is_some() {
                    let old_hit = primary[existing].clone_hit();
                    let updated = SearchHit {
                        physical_path: old_hit.physical_path,
                        file_name: old_hit.file_name,
                        extension: old_hit.extension,
                        modified_at: old_hit.modified_at,
                        size_bytes: old_hit.size_bytes,
                        hit_source: hit.hit_source,
                        snippet: hit.snippet,
                    };
                    primary.set(existing, updated);
                } else {
                    assert(primary@.update(existing as int, absorb(primary@[existing as int], hit))
                        =~= primary@);
                }
            },
            None => {
                let ghost before_push = primary@;
                assert(secondary@.skip(i as int).len() > 0);
                if primary.len() >= limit {
                    assert(merged(before_push, secondary@.skip(i as int), limit as int) == primary@);
                    return primary;
                }
                primary.push(hit);
                if primary.len() >= limit {
                    assert(merged(before_push, secondary@.skip(i as int), limit as int) == primary@);
                    assert(merged(initial, secondary@, limit as int) == primary@);
                    return primary;
                }
            },
        }
        i = i + 1;
    }
    primary
}

impl LocalSearchIndexRecord {
    fn content_hit(&self, needle: &Vec<char>, radius: usize) -> (h: SearchHit)
        ensures
            is_content_hit(h, *self, needle@, radius as nat),
    {
        let needle_text = string_of(needle);
        SearchHit {
            physical_path: self.file.physical_path.clone(),
            file_name: self.file.file_name.clone(),
            extension: self.file.extension.clone(),
            modified_at: self.file.modified_at,
            size_bytes: self.file.size_bytes,
            hit_source: HIT_SOURCE_CONTENT.to_owned(),
            snippet: match &self.content {
                Some(content) => {
                    let content_len = content.as_str().as_bytes().len();
                    let r = if radius < content_len {
                        radius
                    } else {
                        content_len
                    };
                    Some(build_snippet(content.as_str(), needle_text.as_str(), r))
                },
                None => None,
            },
        }
    }
}

impl Default for LocalSearchIndex {
    fn default() -> (r: Self)
        ensures
            r.records() == Seq::<LocalSearchIndexRecord>::empty(),
            r.radius() == 0,
    {
        Self { records: Vec::new(), snippet_radius: 0 }
    }
}

impl LocalSearchIndex {
    /// Every record's normalized content is its lowercased content.
    #[verifier::type_invariant]
    closed spec fn well_formed(self) -> bool {
        forall|i: int| 0 <= i < self.records@.len() ==> (#[trigger] self.records@[i]).is_normalized()
    }

    pub closed spec fn records(&self) -> Seq<LocalSearchIndexRecord> {
        self.records@
    }

    pub closed spec fn radius(&self) -> nat {
        self.snippet_radius as nat
    }

    /// The index holding the files and contents of `records`, in order,
    /// whose content snippets reach `snippet_radius` bytes around a match.
    /// Each record's normalized content is computed afresh.
    pub fn from_parts(records: Vec<LocalSearchIndexRecord>, snippet_radius: usize) -> (r: Self)
        ensures
            r.records().len() == records@.len(),
            forall|i: int|
                0 <= i < records@.len() ==> (#[trigger] r.records()[i]).file_of() == records@[i].file_of()
                    && r.records()[i].content_of() == records@[i].content_of(),
            r.radius() == snippet_radius,
    {
        let mut normalized: Vec<LocalSearchIndexRecord> = Vec::new();
        let mut i: usize = 0;
        while i < records.len()
            invariant
                i <= records@.len(),
                normalized@.len() == i,
                forall|k: int|
                    0 <= k < i ==> (#[trigger] normalized@[k]).file_of() == records@[k].file_of()
                        && normalized@[k].content_of() == records@[k].content_of()
                        && normalized@[k].is_normalized(),
            decreases records.len() - i,
        {
            let record = &records[i];
            let content = match &record.content {
                Some(text) => Some(text.clone()),
                None => None,
            };
            normalized.push(LocalSearchIndexRecord::new(record.file.clone_record(), content));
            i = i + 1;
        }
        Self { records: normalized, snippet_radius }
    }

    /// The counts of the index: its files and the files with content.
    pub fn summary(&self) -> (r: IndexBuildSummary)
        ensures
            r.indexed_files == self.records().len(),
            r.content_files == count_content(self.records()),
            r.parse_errors == 0,
            r.content_queue_depth == 0,
    {
        IndexBuildSummary {
            indexed_files: self.records.len(),
            content_files: count_contents(&self.records),
            parse_errors: 0,
            content_queue_depth: 0,
        }
    }

    /// Searches the index: a `content:` query searches content only; a
    /// query without plain text searches file names only; plain text
    /// searches file names first and merges content hits after them.
    pub fn search(&self, query: &SearchQuery, limit: usize) -> (r: Vec<SearchHit>)
        ensures
            are_search_hits(r@, self.records(), self.radius(), *query, limit),
            query_key_lowercased(*query),
            forall|i: int|
                0 <= i < self.records().len() ==> ascii_key_lowercased(
                    (#[trigger] self.records()[i]).file_of().extension@,
                ),
    {
        let file_index = self.file_name_index();
        let name_matches = search_file_name_index(&file_index, query, limit);
        proof {
            self.lemma_file_name_hits(file_index@, name_matches@, *query, limit);
        }
        let content_query = match &query.content {
            Some(value) => value.as_str().as_bytes().len() > 0,
            None => false,
        };
        if content_query {
            return self.search_content(query, limit);
        }
        let has_text = match &query.text {
            Some(value) => value.as_str().as_bytes().len() > 0,
            None => false,
        };
        if !has_text {
            return name_matches;
        }
        let content_matches = self.search_content(query, limit);
        let ghost names = name_matches@;
        let ghost contents = content_matches@;
        let r = merge_hits(name_matches, content_matches, limit);
        assert(are_filename_hits(names, record_files(self.records()), *query, limit));
        assert(are_content_hits(contents, self.records(), *query, limit, self.radius()));
        r
    }

    fn file_name_index(&self) -> (r: Vec<FileNameSearchIndexRecord>)
        ensures
            r@.len() == self.records().len(),
            forall|i: int|
                0 <= i < r@.len() ==> #[trigger] r@[i].indexes(self.records()[i].file_of()),
            forall|i: int|
                0 <= i < r@.len() ==> ascii_key_lowercased(
                    (#[trigger] self.records()[i]).file_of().extension@,
                ),
    {
        let mut index: Vec<FileNameSearchIndexRecord> = Vec::new();
        let mut i: usize = 0;
        while i < self.records.len()
            invariant
                i <= self.records@.len(),
                index@.len() == i,
                forall|k: int|
                    0 <= k < i ==> #[trigger] index@[k].indexes(self.records@[k].file_of()),
                forall|k: int|
                    0 <= k < i ==> ascii_key_lowercased((#[trigger] self.records@[k]).file_of().extension@),
            decreases self.records.len() - i,
        {
            index.push(FileNameSearchIndexRecord::from_file_record(&self.records[i].file));
            i = i + 1;
        }
        index
    }

    proof fn lemma_file_name_hits(
        &self,
        index: Seq<FileNameSearchIndexRecord>,
        hits: Seq<SearchHit>,
        query: SearchQuery,
        limit: usize,
    )
        requires
            index.len() == self.records().len(),
            forall|i: int| 0 <= i < index.len() ==> #[trigger] index[i].indexes(self.records()[i].file_of()),
            hits.len() == first_n(selected_entries(index, query), limit as int).len(),
            forall|i: int|
                0 <= i < hits.len() ==> {
                    let e = #[trigger] first_n(selected_entries(index, query), limit as int)[i];
                    is_filename_hit(
                        hits[i],
                        e.physical_path,
                        e.file_name,
                        e.extension,
                        e.modified_at,
                        e.size_bytes,
                    )
                },
        ensures
            are_filename_hits(hits, record_files(self.records()), query, limit),
    {
        let files = record_files(self.records());
        assert forall|i: int| 0 <= i < index.len() implies #[trigger] index[i].indexes(files[i]) by {
            assert(index[i].indexes(self.records()[i].file_of()));
        }
        crate::search::lemma_index_selection(index, files, query);
        let a = first_n(selected_entries(index, query), limit as int);
        let b = first_n(selected_records(files, query), limit as int);
        assert forall|i: int| 0 <= i < hits.len() implies {
            let e = #[trigger] b[i];
            is_filename_hit(hits[i], e.physical_path, e.file_name, e.extension, e.modified_at, e.size_bytes)
        } by {
            assert(a[i] == selected_entries(index, query)[i]);
            assert(b[i] == selected_records(files, query)[i]);
            assert(selected_entries(index, query)[i].indexes(selected_records(files, query)[i]));
        }
    }

    fn search_content(&self, query: &SearchQuery, limit: usize) -> (r: Vec<SearchHit>)
        ensures
            are_content_hits(r@, self.records(), *query, limit, self.radius()),
    {
        proof {
            use_type_invariant(self);
        }
        let directive = match &query.content {
            Some(value) => value.as_str().as_bytes().len() > 0,
            None => false,
        };
        let needle = if directive {
            match &query.content {
                Some(value) => lower_chars_of(value.as_str()),
                None => Vec::new(),
            }
        } else {
            match &query.text {
                Some(value) => lower_chars_of(value.as_str()),
                None => Vec::new(),
            }
        };
        let extension = match &query.extension {
            Some(value) => Some(chars_of(crate::content_store::normalize_extension(value.as_str()).as_str())),
            None => None,
        };
        if needle.len() == 0 {
            return Vec::new();
        }
        let mut hits: Vec<SearchHit> = Vec::new();
        let mut i: usize = 0;
        while i < self.records.len() && hits.len() < limit
            invariant
                i <= self.records@.len(),
                needle@ == content_needle(*query),
                needle@.len() > 0,
                match query.extension {
                    Some(e) => extension matches Some(x) && x@ == store_extension(e@),
                    None => extension is None,
                },
                forall|k: int| 0 <= k < self.records@.len() ==> (#[trigger] self.records@[k]).is_normalized(),
                hits@.len() == content_selected(self.records@.take(i as int), *query).len(),
                hits@.len() <= limit,
                forall|k: int|
                    0 <= k < hits@.len() ==> is_content_hit(
                        #[trigger] hits@[k],
                        content_selected(self.records@.take(i as int), *query)[k],
                        needle@,
                        self.snippet_radius as nat,
                    ),
            decreases self.records.len() - i,
        {
            assert(self.records@.take(i + 1).drop_last() =~= self.records@.take(i as int));
            let record = &self.records[i];
            let extension_ok = match &extension {
                Some(x) => {
                    let undotted = trim_start_matches_char(&chars_of(record.file.extension.as_str()), '.');
                    let lowered = ascii_lowercase(&undotted);
                    crate::text::chars_equal(&lowered, x)
                },
                None => true,
            };
            let content_ok = match &record.normalized_content {
                Some(c) => contains_chars(c, &needle),
                None => false,
            };
            if extension_ok && content_ok {
                hits.push(record.content_hit(&needle, self.snippet_radius));
            }
            i = i + 1;
        }
        proof {
            lemma_content_selected_prefix(self.records@, *query, i as int);
            let all = content_selected(self.records@, *query);
            let part = content_selected(self.records@.take(i as int), *query);
            if i == self.records@.len() {
                assert(self.records@.take(i as int) =~= self.records@);
            }
            assert(first_n(all, limit as int) =~= part);
        }
        hits
    }
}

// ---------------------------------------------------------------------------
// Building the index
// ---------------------------------------------------------------------------
pub open spec fn opt_bytes(o: Option<&[u8]>) -> Option<Seq<u8>> {
    match o {
        Some(b) => Some(b@),
        None => None,
    }
}

pub open spec fn opt_vec(o: Option<Vec<u8>>) -> Option<Seq<u8>> {
    match o {
        Some(b) => Some(b@),
        None => None,
    }
}

/// The index reads a file's content: content indexing is allowed and the
/// file is queued for parsing.
pub open spec fn wants_content(file: FileIndexRecord, allow: bool) -> bool {
    allow && file.content_action == ContentAction::QueueParse
}

/// What a read of a file gives the index (`read` is `None` when reading
/// failed): the decoded text of well-formed UTF-8 bytes of a text
/// extension, else nothing.
pub open spec fn content_of_read(policy: IndexerPolicy, file: FileIndexRecord, read: Option<Seq<u8>>) -> Option<
    Seq<char>,
> {
    match read {
        Some(b) => if is_text_extension(policy, file.extension@) && valid_utf8(b) {
            Some(decode_utf8(b))
        } else {
            None
        },
        None => None,
    }
}

/// The content that the index keeps for a file.
pub open spec fn indexed_content(
    policy: IndexerPolicy,
    file: FileIndexRecord,
    allow: bool,
    read: Option<Seq<u8>>,
) -> Option<Seq<char>> {
    if wants_content(file, allow) {
        content_of_read(policy, file, read)
    } else {
        None
    }
}

/// One error for a wanted file whose read or parse failed.
pub open spec fn read_errors(policy: IndexerPolicy, file: FileIndexRecord, allow: bool, read: Option<Seq<u8>>) -> nat {
    if wants_content(file, allow) && content_of_read(policy, file, read) is None {
        1
    } else {
        0
    }
}

/// The errors of building the index from `files` and their reads.
pub open spec fn total_read_errors(
    policy: IndexerPolicy,
    files: Seq<FileIndexRecord>,
    reads: Seq<Option<Vec<u8>>>,
    allow: bool,
) -> nat
    decreases files.len(),
{
    if files.len() == 0 {
        0
    } else {
        total_read_errors(policy, files.drop_last(), reads.take(files.len() - 1), allow)
            + read_errors(policy, files.last(), allow, opt_vec(reads[files.len() - 1]))
    }
}

/// `rec` is the index record of `file`: its normalized content is the
/// lowercased content, which is what the file's read gave.
pub open spec fn is_built_record(
    rec: LocalSearchIndexRecord,
    policy: IndexerPolicy,
    file: FileIndexRecord,
    allow: bool,
    read: Option<Seq<u8>>,
) -> bool {
    &&& rec.file_of() == file
    &&& string_opt(rec.content_of()) == indexed_content(policy, file, allow, read)
    &&& rec.norm_content() == lowered_opt(string_opt(rec.content_of()))
}

/// The records that hold content, in order.
pub open spec fn with_content(records: Seq<LocalSearchIndexRecord>) -> Seq<LocalSearchIndexRecord>
    decreases records.len(),
{
    if records.len() == 0 {
        seq![]
    } else if records.last().content_of() is Some {
        with_content(records.drop_last()).push(records.last())
    } else {
        with_content(records.drop_last())
    }
}

/// `d` is the content-store document of `file` holding `content`.
pub open spec fn is_document_of(d: ContentDocument, file: FileIndexRecord, content: Seq<char>) -> bool {
    &&& d.physical_path == file.physical_path
    &&& d.file_name == file.file_name
    &&& d.extension == file.extension
    &&& d.modified_at == file.modified_at
    &&& d.content@ == content
}

/// `docs` are the store documents of the records that hold content, in order.
pub open spec fn are_documents_of(docs: Seq<ContentDocument>, records: Seq<LocalSearchIndexRecord>) -> bool {
    let wc = with_content(records);
    &&& docs.len() == wc.len()
    &&& forall|i: int|
        0 <= i < docs.len() ==> is_document_of(
            #[trigger] docs[i],
            wc[i].file_of(),
            wc[i].content_of()->0@,
        )
}

/// Whether the index reads the content of `file`.
pub fn content_read_wanted(file: &FileIndexRecord, allow_content_indexing: bool) -> (r: bool)
    ensures
        r == wants_content(*file, allow_content_indexing),
{
    allow_content_indexing && file.content_action == ContentAction::QueueParse
}

/// The content that the index keeps for `file`, and the number of errors
/// (0 or 1); `read` is what reading the file gave, `None` when it failed.
/// Nothing is read or counted for a file that is not wanted.
pub fn indexable_content(
    policy: &IndexerPolicy,
    file: &FileIndexRecord,
    allow_content_indexing: bool,
    read: Option<&[u8]>,
) -> (r: (Option<String>, usize))
    ensures
        string_opt(r.0) == indexed_content(*policy, *file, allow_content_indexing, opt_bytes(read)),
        r.1 == read_errors(*policy, *file, allow_content_indexing, opt_bytes(read)),
{
    if !content_read_wanted(file, allow_content_indexing) {
        return (None, 0);
    }
    match read {
        None => (None, 1),
        Some(bytes) => {
            let registry = ParserRegistry::from_text_extensions(
                policy.text_extensions.clone(),
                policy.parse_error_code.clone(),
            );
            match registry.parse_extension(file.extension.as_str(), bytes) {
                Ok(text) => (Some(text), 0),
                Err(_) => (None, 1),
            }
        },
    }
}

impl ContentDocument {
    /// The store document of `file` holding `content`.
    pub fn of_file(file: &FileIndexRecord, content: &String) -> (d: Self)
        ensures
            is_document_of(d, *file, content@),
    {
        ContentDocument {
            physical_path: file.physical_path.clone(),
            file_name: file.file_name.clone(),
            extension: file.extension.clone(),
            modified_at: file.modified_at,
            content: content.clone(),
        }
    }
}

impl LocalSearchIndex {
    /// Builds the index from scanned files and what reading each of them
    /// gave (`reads[i]` for `files[i]`; `None` where reading failed or was
    /// not wanted). Returns the index, its counts, and the documents that the
    /// content store is to hold.
    pub fn from_records_with_content_store(
        policy: &IndexerPolicy,
        files: Vec<FileIndexRecord>,
        reads: Vec<Option<Vec<u8>>>,
        allow_content_indexing: bool,
    ) -> (r: (Self, IndexBuildSummary, Vec<ContentDocument>))
        requires
            files@.len() == reads@.len(),
        ensures
            r.0.records().len() == files@.len(),
            forall|i: int|
                0 <= i < files@.len() ==> is_built_record(
                    #[trigger] r.0.records()[i],
                    *policy,
                    files@[i],
                    allow_content_indexing,
                    opt_vec(reads@[i]),
                ),
            r.0.radius() == policy.content_index.snippet_radius as usize,
            r.1.indexed_files == files@.len(),
            r.1.content_files == count_content(r.0.records()),
            r.1.parse_errors == total_read_errors(*policy, files@, reads@, allow_content_indexing),
            r.1.content_queue_depth == 0,
            are_documents_of(r.2@, r.0.records()),
            !allow_content_indexing ==> r.1.content_files == 0 && r.1.parse_errors == 0 && r.2@.len()
                == 0,
            !allow_content_indexing ==> forall|i: int|
                0 <= i < r.0.records().len() ==> (#[trigger] r.0.records()[i]).content_of() is None,
    {
        let mut records: Vec<LocalSearchIndexRecord> = Vec::new();
        let mut documents: Vec<ContentDocument> = Vec::new();
        let mut parse_errors: usize = 0;
        let mut content_files: usize = 0;
        let mut i: usize = 0;
        while i < files.len()
            invariant
                i <= files@.len(),
                files@.len() == reads@.len(),
                records@.len() == i,
                forall|k: int|
                    0 <= k < i ==> is_built_record(
                        #[trigger] records@[k],
                        *policy,
                        files@[k],
                        allow_content_indexing,
                        opt_vec(reads@[k]),
                    ),
                parse_errors == total_read_errors(
                    *policy,
                    files@.take(i as int),
                    reads@.take(i as int),
                    allow_content_indexing,
                ),
                parse_errors <= i,
                content_files == count_content(records@),
                content_files <= i,
                are_documents_of(documents@, records@),
                !allow_content_indexing ==> content_files == 0 && parse_errors == 0 && documents@.len()
                    == 0,
            decreases files.len() - i,
        {
            let file = files[i].clone_record();
            let read: Option<&[u8]> = match &reads[i] {
                Some(bytes) => Some(bytes.as_slice()),
                None => None,
            };
            assert(opt_bytes(read) == opt_vec(reads@[i as int]));
            let (content, errors) = indexable_content(policy, &file, allow_content_indexing, read);
            let ghost before = records@;
            let ghost docs_before = documents@;
            let has_content = content.is_some();
            match &content {
                Some(text) => {
                    documents.push(ContentDocument::of_file(&file, text));
                },
                None => {},
            }
            let record = LocalSearchIndexRecord::new(file, content);
            records.push(record);
            proof {
                assert(records@.drop_last() =~= before);
                assert(files@.take(i + 1).drop_last() =~= files@.take(i as int));
                assert(reads@.take(i + 1).take(i as int) =~= reads@.take(i as int));
                assert(reads@.take(i + 1)[i as int] == reads@[i as int]);
                let wc = with_content(records@);
                let wb = with_content(before);
                if has_content {
                    assert(wc == wb.push(record));
                    assert forall|k: int| 0 <= k < documents@.len() implies is_document_of(
                        #[trigger] documents@[k],
                        wc[k].file_of(),
                        wc[k].content_of()->0@,
                    ) by {
                        if k < wb.len() {
                            assert(documents@[k] == docs_before[k]);
                        }
                    }
                }
            }
            parse_errors = parse_errors + errors;
            if has_content {
                content_files = content_files + 1;
            }
            i = i + 1;
        }
        assert(files@.take(files@.len() as int) =~= files@);
        assert(reads@.take(reads@.len() as int) =~= reads@);
        let summary = IndexBuildSummary {
            indexed_files: records.len(),
            content_files,
            parse_errors,
            content_queue_depth: 0,
        };
        let radius = policy.content_index.snippet_radius as usize;
        (Self { records, snippet_radius: radius }, summary, documents)
    }

    /// Builds the index from scanned files and their reads, with content
    /// indexing as the policy configures it.
    pub fn from_records(policy: &IndexerPolicy, files: Vec<FileIndexRecord>, reads: Vec<Option<Vec<u8>>>) -> (r: (
        Self,
        IndexBuildSummary,
    ))
        requires
            files@.len() == reads@.len(),
        ensures
            r.0.records().len() == files@.len(),
            forall|i: int|
                0 <= i < files@.len() ==> is_built_record(
                    #[trigger] r.0.records()[i],
                    *policy,
                    files@[i],
                    policy.content_index.enabled,
                    opt_vec(reads@[i]),
                ),
            r.0.radius() == policy.content_index.snippet_radius as usize,
            r.1.indexed_files == files@.len(),
            r.1.content_files == count_content(r.0.records()),
            r.1.parse_errors == total_read_errors(*policy, files@, reads@, policy.content_index.enabled),
            r.1.content_queue_depth == 0,
            !policy.content_index.enabled ==> r.1.content_files == 0 && r.1.parse_errors == 0,
    {
        let (index, summary, _documents) = Self::from_records_with_content_store(
            policy,
            files,
            reads,
            policy.content_index.enabled,
        );
        (index, summary)
    }
}

// ---------------------------------------------------------------------------
// Incremental updates
// ---------------------------------------------------------------------------
/// The records without those of `path`, in order.
pub open spec fn without_path(records: Seq<LocalSearchIndexRecord>, path: Seq<char>) -> Seq<
    LocalSearchIndexRecord,
>
    decreases records.len(),
{
    if records.len() == 0 {
        seq![]
    } else if records[0].file_of().physical_path@ == path {
        without_path(records.drop_first(), path)
    } else {
        seq![records[0]] + without_path(records.drop_first(), path)
    }
}

/// No two records share a path.
pub open spec fn distinct_record_paths(records: Seq<LocalSearchIndexRecord>) -> bool {
    forall|i: int, j: int|
        0 <= i < j < records.len() ==> #[trigger] records[i].file_of().physical_path@
            != #[trigger] records[j].file_of().physical_path@
}

/// Dropping the records of a path leaves none of them, keeps only records
/// that were there, and keeps paths distinct.
pub proof fn law_without_path(records: Seq<LocalSearchIndexRecord>, path: Seq<char>)
    ensures
        forall|k: int|
            0 <= k < without_path(records, path).len() ==> (#[trigger] without_path(
                records,
                path,
            )[k]).file_of().physical_path@ != path,
        forall|k: int|
            0 <= k < without_path(records, path).len() ==> records.contains(
                #[trigger] without_path(records, path)[k],
            ),
        without_path(records, path).len() <= records.len(),
        distinct_record_paths(records) ==> distinct_record_paths(without_path(records, path)),
    decreases records.len(),
{
    if records.len() > 0 {
        let rest = records.drop_first();
        law_without_path(rest, path);
        let w = without_path(records, path);
        let wr = without_path(rest, path);
        assert forall|k: int| 0 <= k < wr.len() implies records.contains(#[trigger] wr[k]) by {
            let m = choose|m: int| 0 <= m < rest.len() && rest[m] == wr[k];
            assert(records[m + 1] == wr[k]);
        }
        if records[0].file_of().physical_path@ != path {
            assert(w == seq![records[0]] + wr);
            assert forall|k: int| 0 <= k < w.len() implies records.contains(#[trigger] w[k]) by {
                if k == 0 {
                    assert(records[0] == w[0]);
                } else {
                    assert(w[k] == wr[k - 1]);
                }
            }
            if distinct_record_paths(records) {
                assert(distinct_record_paths(rest)) by {
                    assert forall|i: int, j: int|
                        0 <= i < j < rest.len() implies #[trigger] rest[i].file_of().physical_path@
                        != #[trigger] rest[j].file_of().physical_path@ by {
                        assert(records[i + 1] == rest[i] && records[j + 1] == rest[j]);
                    }
                }
                assert forall|i: int, j: int|
                    0 <= i < j < w.len() implies #[trigger] w[i].file_of().physical_path@
                    != #[trigger] w[j].file_of().physical_path@ by {
                    assert(w[j] == wr[j - 1]);
                    if i == 0 {
                        let m = choose|m: int| 0 <= m < records.len() && records[m] == wr[j - 1];
                        assert(records.contains(wr[j - 1]));
                        if m == 0 {
                            assert(records[0].file_of().physical_path@ != path);
                            assert(wr[j - 1].file_of().physical_path@ != path);
                        } else {
                            assert(records[0].file_of().physical_path@
                                != records[m].file_of().physical_path@);
                        }
                    } else {
                        assert(w[i] == wr[i - 1]);
                    }
                }
            }
        } else {
            if distinct_record_paths(records) {
                assert forall|i: int, j: int|
                    0 <= i < j < rest.len() implies #[trigger] rest[i].file_of().physical_path@
                    != #[trigger] rest[j].file_of().physical_path@ by {
                    assert(records[i + 1] == rest[i] && records[j + 1] == rest[j]);
                }
            }
        }
    }
}

/// `after` is `before` after one event: unchanged, without the records of
/// a path, or without the records of a path and with a new record of that
/// path last.
pub open spec fn is_update_step(before: Seq<LocalSearchIndexRecord>, after: Seq<LocalSearchIndexRecord>) -> bool {
    ||| after == before
    ||| exists|p: Seq<char>| after == #[trigger] without_path(before, p)
    ||| (after.len() > 0 && after.drop_last() == without_path(
        before,
        after.last().file_of().physical_path@,
    ))
}

proof fn lemma_update_step_keeps_paths_distinct(
    before: Seq<LocalSearchIndexRecord>,
    after: Seq<LocalSearchIndexRecord>,
)
    requires
        distinct_record_paths(before),
        is_update_step(before, after),
    ensures
        distinct_record_paths(after),
{
    if after == before {
    } else if exists|p: Seq<char>| after == #[trigger] without_path(before, p) {
        let p = choose|p: Seq<char>| after == #[trigger] without_path(before, p);
        law_without_path(before, p);
    } else {
        let path = after.last().file_of().physical_path@;
        let kept = after.drop_last();
        law_without_path(before, path);
        assert forall|i: int, j: int|
            0 <= i < j < after.len() implies #[trigger] after[i].file_of().physical_path@
            != #[trigger] after[j].file_of().physical_path@ by {
            assert(after[i] == kept[i]);
            if j < after.len() - 1 {
                assert(after[j] == kept[j]);
            }
        }
    }
}

/// Starting from an empty index, every run of updates keeps one record per
/// path.
pub proof fn law_updates_keep_one_record_per_path(runs: Seq<Seq<LocalSearchIndexRecord>>)
    requires
        runs.len() > 0,
        runs[0].len() == 0,
        forall|i: int| 0 <= i < runs.len() - 1 ==> is_update_step(#[trigger] runs[i], runs[i + 1]),
    ensures
        forall|i: int| 0 <= i < runs.len() ==> distinct_record_paths(#[trigger] runs[i]),
    decreases runs.len(),
{
    if runs.len() > 1 {
        let init = runs.drop_last();
        assert forall|i: int| 0 <= i < init.len() - 1 implies is_update_step(#[trigger] init[i], init[i + 1]) by {
            assert(init[i] == runs[i] && init[i + 1] == runs[i + 1]);
            assert(is_update_step(runs[i], runs[i + 1]));
        }
        law_updates_keep_one_record_per_path(init);
        let n = runs.len() - 1;
        assert(init[n - 1] == runs[n - 1]);
        assert(is_update_step(runs[n - 1], runs[n]));
        lemma_update_step_keeps_paths_distinct(runs[n - 1], runs[n]);
        assert forall|i: int| 0 <= i < runs.len() implies distinct_record_paths(#[trigger] runs[i]) by {
            if i < n {
                assert(init[i] == runs[i]);
            }
        }
    }
}

/// The path whose content an update event asks to read: that of a watched
/// file queued for parsing while content indexing is allowed.
pub open spec fn read_path_of(policy: IndexerPolicy, event: FsEvent, allow: bool, home: Option<Seq<char>>) -> Option<
    Seq<char>,
> {
    match watched_entry(policy, event, home) {
        Some(e) => if allow && entry_action(policy, e) == ContentAction::QueueParse {
            Some(e.physical_path@)
        } else {
            None
        },
        None => None,
    }
}

/// `s` gives the counts of `records`, with `errors` parse errors.
pub open spec fn summarizes(s: IndexBuildSummary, records: Seq<LocalSearchIndexRecord>, errors: nat) -> bool {
    &&& s.indexed_files == records.len()
    &&& s.content_files == count_content(records)
    &&& s.parse_errors == errors
    &&& s.content_queue_depth == 0
}

/// The store action after upserting `rec`: its document when it holds
/// content, else the deletion of its path.
pub open spec fn is_store_action_for(a: StoreAction, rec: LocalSearchIndexRecord) -> bool {
    match rec.content_of() {
        Some(c) => a matches StoreAction::Upsert(d) && is_document_of(d, rec.file_of(), c@),
        None => a matches StoreAction::Delete(p) && p == rec.file_of().physical_path,
    }
}

/// The index as kept while the application runs, updated by rebuilds and
/// file-system events.
#[derive(Debug)]
pub struct RuntimeIndexState {
    index: LocalSearchIndex,
}

impl Default for RuntimeIndexState {
    fn default() -> (r: Self)
        ensures
            r.index().records() == Seq::<LocalSearchIndexRecord>::empty(),
            r.index().radius() == 0,
    {
        RuntimeIndexState { index: LocalSearchIndex::default() }
    }
}

/// The path to read for an update event, when it asks for one: a created or
/// modified file under a watch root, queued for parsing while content
/// indexing is allowed.
pub fn content_read_path(
    policy: &IndexerPolicy,
    event: &FsEvent,
    allow_content_indexing: bool,
    home: Option<&str>,
) -> (r: Option<String>)
    ensures
        opt_string_view(r) == read_path_of(*policy, *event, allow_content_indexing, opt_str(home)),
{
    match crate::indexer::watched_record(policy, event.clone_event(), home) {
        Some(file) => if content_read_wanted(&file, allow_content_indexing) {
            Some(file.physical_path)
        } else {
            None
        },
        None => None,
    }
}

pub open spec fn opt_string_view(o: Option<String>) -> Option<Seq<char>> {
    match o {
        Some(s) => Some(s@),
        None => None,
    }
}

fn records_without_path(records: &mut Vec<LocalSearchIndexRecord>, path: &String)
    ensures
        final(records)@ == without_path(old(records)@, path@),
{
    let ghost original = records@;
    let mut i: usize = 0;
    assert(original.skip(0) =~= original);
    assert(original.take(0) + without_path(original.skip(0), path@) =~= without_path(original, path@));
    while i < records.len()
        invariant
            i <= records@.len(),
            without_path(original, path@) == records@.take(i as int) + without_path(
                records@.skip(i as int),
                path@,
            ),
        decreases records.len() - i,
    {
        let ghost cur = records@;
        assert(cur.skip(i as int).drop_first() =~= cur.skip(i + 1));
        assert(cur.skip(i as int)[0] == cur[i as int]);
        let same = records[i].file.physical_path == *path;
        if same {
            records.remove(i);
            assert(records@.take(i as int) =~= cur.take(i as int));
            assert(records@.skip(i as int) =~= cur.skip(i + 1));
        } else {
            assert(cur.take(i + 1) =~= cur.take(i as int) + seq![cur[i as int]]);
            assert(cur.take(i as int) + (seq![cur[i as int]] + without_path(cur.skip(i + 1), path@))
                =~= cur.take(i + 1) + without_path(cur.skip(i + 1), path@));
            i = i + 1;
        }
    }
    assert(records@.skip(i as int) =~= Seq::<LocalSearchIndexRecord>::empty());
    assert(records@.take(i as int) =~= records@);
    assert(without_path(original, path@) =~= records@);
}

impl LocalSearchIndex {
    /// Drops the records of `path`.
    /// Drops the records of `path`.
    fn remove_path(&mut self, path: &String)
        ensures
            final(self).records() == without_path(old(self).records(), path@),
            final(self).radius() == old(self).radius(),
    {
        proof {
            use_type_invariant(&*self);
            law_without_path(self.records@, path@);
        }
        let ghost original = self.records@;
        let mut records: Vec<LocalSearchIndexRecord> = Vec::new();
        std::mem::swap(&mut records, &mut self.records);
        records_without_path(&mut records, path);
        proof {
            assert forall|k: int| 0 <= k < records@.len() implies (#[trigger] records@[k]).is_normalized() by {
                assert(original.contains(records@[k]));
                let m = choose|m: int| 0 <= m < original.len() && original[m] == records@[k];
                assert(original[m].is_normalized());
            }
        }
        self.records = records;
    }

    /// Appends a record whose normalized content is its lowercased content.
    fn push_record(&mut self, record: LocalSearchIndexRecord)
        requires
            record.is_normalized(),
        ensures
            final(self).records() == old(self).records().push(record),
            final(self).radius() == old(self).radius(),
    {
        proof {
            use_type_invariant(&*self);
        }
        let mut records: Vec<LocalSearchIndexRecord> = Vec::new();
        std::mem::swap(&mut records, &mut self.records);
        records.push(record);
        self.records = records;
    }

    /// Sets the snippet radius.
    fn set_radius(&mut self, snippet_radius: usize)
        ensures
            final(self).records() == old(self).records(),
            final(self).radius() == snippet_radius,
    {
        proof {
            use_type_invariant(&*self);
        }
        self.snippet_radius = snippet_radius;
    }
}

impl RuntimeIndexState {
    pub closed spec fn index(&self) -> LocalSearchIndex {
        self.index
    }

    /// Installs a rebuilt index, as returned by `LocalSearchIndex::from_records`,
    /// and returns the counts of the rebuild.
    pub fn rebuild(&mut self, rebuilt: (LocalSearchIndex, IndexBuildSummary)) -> (r: IndexBuildSummary)
        ensures
            final(self).index() == rebuilt.0,
            r == rebuilt.1,
    {
        let (index, summary) = rebuilt;
        self.index = index;
        summary
    }

    /// The index is empty and is to be rebuilt before it is searched.
    pub fn needs_rebuild(&self) -> (r: bool)
        ensures
            r == (self.index().records().len() == 0),
    {
        self.index.records.len() == 0
    }

    /// The counts of the current index.
    pub fn summary(&self) -> (r: IndexBuildSummary)
        ensures
            summarizes(r, self.index().records(), 0),
    {
        self.index.summary()
    }

    /// Searches the current index.
    pub fn search(&self, query: &SearchQuery, limit: usize) -> (r: Vec<SearchHit>)
        ensures
            are_search_hits(r@, self.index().records(), self.index().radius(), *query, limit),
            query_key_lowercased(*query),
            forall|i: int|
                0 <= i < self.index().records().len() ==> ascii_key_lowercased(
                    (#[trigger] self.index().records()[i]).file_of().extension@,
                ),
    {
        self.index.search(query, limit)
    }

    /// Applies a file-system event. A removal drops the path's records and
    /// asks the store to delete it. A creation or change of a watched file
    /// replaces the path's records with the file's new record, whose content
    /// comes from `read` (what reading the path of `content_read_path` gave),
    /// and asks the store to hold its document, or to delete the path when
    /// it has no content. Other events change nothing and ask nothing.
    pub fn apply_fs_event(
        &mut self,
        policy: &IndexerPolicy,
        event: FsEvent,
        allow_content_indexing: bool,
        home: Option<&str>,
        read: Option<&[u8]>,
    ) -> (r: (IndexBuildSummary, Option<StoreAction>))
        ensures
            is_update_step(old(self).index().records(), final(self).index().records()),
            event matches FsEvent::Removed { path } ==> {
                &&& final(self).index().records() == without_path(old(self).index().records(), path@)
                &&& forall|k: int|
                    0 <= k < final(self).index().records().len()
                        ==> (#[trigger] final(self).index().records()[k]).file_of().physical_path@ != path@
                &&& distinct_record_paths(old(self).index().records()) ==> distinct_record_paths(
                    final(self).index().records(),
                )
                &&& final(self).index().radius() == old(self).index().radius()
                &&& summarizes(r.0, final(self).index().records(), 0)
                &&& r.1 == Some(StoreAction::Delete(path))
            },
            !(event is Removed) && watched_entry(*policy, event, opt_str(home)) is None ==> {
                &&& final(self).index() == old(self).index()
                &&& summarizes(r.0, old(self).index().records(), 0)
                &&& r.1 is None
            },
            watched_entry(*policy, event, opt_str(home)) matches Some(e) ==> {
                let recs = final(self).index().records();
                let rec = recs.last();
                &&& recs.len() > 0
                &&& recs.drop_last() == without_path(old(self).index().records(), e.physical_path@)
                &&& forall|k: int|
                    0 <= k < recs.len() - 1 ==> (#[trigger] recs[k]).file_of().physical_path@
                        != e.physical_path@
                &&& distinct_record_paths(old(self).index().records()) ==> distinct_record_paths(recs)
                &&& is_record_of(rec.file_of(), *policy, e)
                &&& is_built_record(rec, *policy, rec.file_of(), allow_content_indexing, opt_bytes(read))
                &&& final(self).index().radius() == policy.content_index.snippet_radius as usize
                &&& summarizes(
                    r.0,
                    recs,
                    read_errors(*policy, rec.file_of(), allow_content_indexing, opt_bytes(read)),
                )
                &&& r.1 matches Some(a) && is_store_action_for(a, rec)
                &&& !allow_content_indexing ==> rec.content_of() is None && r.0.parse_errors == 0
                &&& read_path_of(*policy, event, allow_content_indexing, opt_str(home)) is None
                    ==> rec.content_of() is None && r.0.parse_errors == 0
            },
    {
        if let FsEvent::Removed { path } = &event {
            proof {
                law_without_path(self.index.records@, path@);
            }
            self.index.remove_path(path);
            let summary = self.index.summary();
            return (summary, Some(StoreAction::Delete(path.clone())));
        }
        let mut queue = ParseQueue::new();
        let gated = enqueue_fs_event_with_content_gate(
            policy,
            &mut queue,
            event,
            allow_content_indexing,
            home,
        );
        let file = match gated {
            Some(file) => file,
            None => {
                return (self.summary(), None);
            },
        };
        let queued = queue.pop().is_some();
        let (content, errors) = if queued {
            indexable_content(policy, &file, allow_content_indexing, read)
        } else {
            (None, 0)
        };
        proof {
            if !queued {
                assert(!wants_content(file, allow_content_indexing));
            }
        }
        let content_queue_depth = queue.len();
        let action = match &content {
            Some(text) => StoreAction::Upsert(ContentDocument::of_file(&file, text)),
            None => StoreAction::Delete(file.physical_path.clone()),
        };
        self.index.set_radius(policy.content_index.snippet_radius as usize);
        proof {
            law_without_path(self.index.records@, file.physical_path@);
        }
        self.index.remove_path(&file.physical_path);
        let record = LocalSearchIndexRecord::new(file, content);
        let ghost kept = self.index.records@;
        self.index.push_record(record);
        proof {
            let recs = self.index.records@;
            assert(recs.drop_last() =~= kept);
            assert forall|k: int| 0 <= k < recs.len() - 1 implies (#[trigger] recs[k]).file_of().physical_path@
                != record.file_of().physical_path@ by {
                assert(recs[k] == kept[k]);
            }
            if distinct_record_paths(old(self).index.records@) {
                assert forall|i: int, j: int|
                    0 <= i < j < recs.len() implies #[trigger] recs[i].file_of().physical_path@
                    != #[trigger] recs[j].file_of().physical_path@ by {
                    assert(recs[i] == kept[i]);
                    if j < recs.len() - 1 {
                        assert(recs[j] == kept[j]);
                    }
                }
            }
        }
        let summary = self.index.summary();
        (
            IndexBuildSummary {
                indexed_files: summary.indexed_files,
                content_files: summary.content_files,
                parse_errors: errors,
                content_queue_depth,
            },
            Some(action),
        )
    }
}

fn count_contents(records: &Vec<LocalSearchIndexRecord>) -> (r: usize)
    ensures
        r == count_content(records@),
{
    let mut n: usize = 0;
    let mut i: usize = 0;
    while i < records.len()
        invariant
            i <= records@.len(),
            n == count_content(records@.take(i as int)),
            n <= i,
        decreases records.len() - i,
    {
        assert(records@.take(i + 1).drop_last() =~= records@.take(i as int));
        if records[i].content.is_some() {
            n = n + 1;
        }
        i = i + 1;
    }
    assert(records@.take(records@.len() as int) =~= records@);
    n
}

} // verus!

//! File-name search: the index of normalized names and the field filters
//! (`name:`, `ext:` and plain text) that select from it.
use vstd::prelude::*;
use crate::indexer::FileIndexRecord;
use crate::text::{
    chars_of, contains_chars, contains_seq, lower_chars_of, lower_seq, trim_chars,
    trim_seq, trim_start_char, trim_start_matches_char, string_of,
};

verus! {

/// The source of a hit found through the file name or path.
pub const HIT_SOURCE_FILENAME: &'static str = "filename";

/// The source of a hit found through the file's content.
pub const HIT_SOURCE_CONTENT: &'static str = "content";

#[derive(Debug, Clone, PartialEq, Eq)]
pub struct SearchQuery {
    pub name: Option<String>,
    pub content: Option<String>,
    pub extension: Option<String>,
    pub text: Option<String>,
}

#[derive(Debug, Clone, PartialEq, Eq)]
pub struct SearchHit {
    pub physical_path: String,
    pub file_name: String,
    pub extension: String,
    pub modified_at: u64,
    pub size_bytes: u64,
    pub hit_source: String,
    pub snippet: Option<String>,
}

#[derive(Debug, Clone, PartialEq, Eq)]
pub struct FileNameSearchIndexRecord {
    pub physical_path: String,
    pub file_name: String,
    pub extension: String,
    pub modified_at: u64,
    pub size_bytes: u64,
    pub normalized: NormalizedNames,
}

/// The normalized forms of a record's path, name and extension that the
/// search filters read.
#[derive(Debug, Clone, PartialEq, Eq)]
pub struct NormalizedNames {
    path: Vec<char>,
    file_name: Vec<char>,
    extension: String,
}

impl NormalizedNames {
    /// The lowercased path that the text filter reads.
    pub closed spec fn path(&self) -> Seq<char> {
        self.path@
    }

    /// The lowercased file name that the name and text filters read.
    pub closed spec fn name(&self) -> Seq<char> {
        self.file_name@
    }

    /// The extension key that the extension filter reads.
    pub closed spec fn extension(&self) -> Seq<char> {
        self.extension@
    }
}

impl SearchHit {
    /// A copy of the hit.
    pub fn clone_hit(&self) -> (r: Self)
        ensures
            r == *self,
    {
        SearchHit {
            physical_path: self.physical_path.clone(),
            file_name: self.file_name.clone(),
            extension: self.extension.clone(),
            modified_at: self.modified_at,
            size_bytes: self.size_bytes,
            hit_source: self.hit_source.clone(),
            snippet: match &self.snippet {
                Some(s) => Some(s.clone()),
                None => None,
            },
        }
    }
}

// ---------------------------------------------------------------------------
// Trusted access to std
// ---------------------------------------------------------------------------
/// What `str::to_lowercase` returns for a text: its full Unicode lowercase
/// mapping, which takes Unicode's tables to state.
pub uninterp spec fn unicode_lowercase(s: Seq<char>) -> Seq<char>;

/// Calls `str::to_lowercase`; its result is the Unicode lowercase of the
/// argument, a function of the argument alone. On ASCII text it is the
/// ASCII lowercase: `A`-`Z` become `a`-`z` and every other character stays.
#[verifier::external_body]
fn to_lowercase(s: &str) -> (r: String)
    ensures
        r@ == unicode_lowercase(s@),
        (forall|i: int| 0 <= i < s@.len() ==> (s@[i] as u32) < 128) ==> r@ == lower_seq(s@),
{
    s.to_lowercase()
}

// ---------------------------------------------------------------------------
// Specifications
// ---------------------------------------------------------------------------
/// The extension key of file-name search: trimmed, without leading dots,
/// Unicode-lowercased.
pub open spec fn search_extension(s: Seq<char>) -> Seq<char> {
    unicode_lowercase(trim_start_char(trim_seq(s), '.'))
}

/// Every character is ASCII.
pub open spec fn is_ascii(s: Seq<char>) -> bool {
    forall|i: int| 0 <= i < s.len() ==> (s[i] as u32) < 128
}

/// On an extension whose key is ASCII text, the key is the ASCII lowercase
/// of the trimmed extension without leading dots.
pub open spec fn ascii_key_lowercased(s: Seq<char>) -> bool {
    is_ascii(trim_start_char(trim_seq(s), '.')) ==> search_extension(s) == lower_seq(
        trim_start_char(trim_seq(s), '.'),
    )
}

/// The query's extension filter, when it has one, has an ASCII key that is
/// the ASCII lowercase.
pub open spec fn query_key_lowercased(query: SearchQuery) -> bool {
    query.extension matches Some(e) ==> ascii_key_lowercased(e@)
}

/// The file-name filters of `query` on a record with these normalized
/// fields: the extension must equal the query's; the name must contain the
/// query's name; the name or the path must contain the query's text.
pub open spec fn normalized_fields_match(
    path: Seq<char>,
    name: Seq<char>,
    extension: Seq<char>,
    query: SearchQuery,
) -> bool {
    &&& (query.extension matches Some(e) ==> extension == search_extension(e@))
    &&& (query.name matches Some(n) ==> contains_seq(name, lower_seq(n@)))
    &&& (query.text matches Some(t) ==> contains_seq(name, lower_seq(t@)) || contains_seq(
        path,
        lower_seq(t@),
    ))
}

impl FileNameSearchIndexRecord {
    pub open spec fn matches_query(&self, query: SearchQuery) -> bool {
        normalized_fields_match(self.normalized.path(), self.normalized.name(), self.normalized.extension(), query)
    }

    /// `self` is the index entry of `record`.
    pub open spec fn indexes(&self, record: FileIndexRecord) -> bool {
        &&& self.physical_path == record.physical_path
        &&& self.file_name == record.file_name
        &&& self.extension == record.extension
        &&& self.modified_at == record.modified_at
        &&& self.size_bytes == record.size_bytes
        &&& self.normalized.path() == lower_seq(record.physical_path@)
        &&& self.normalized.name() == lower_seq(record.file_name@)
        &&& self.normalized.extension() == search_extension(record.extension@)
    }
}

/// The file-name filters of `query` on a file record.
pub open spec fn record_matches(record: FileIndexRecord, query: SearchQuery) -> bool {
    normalized_fields_match(
        lower_seq(record.physical_path@),
        lower_seq(record.file_name@),
        search_extension(record.extension@),
        query,
    )
}

/// The index entries that `query` selects, in index order.
pub open spec fn selected_entries(records: Seq<FileNameSearchIndexRecord>, query: SearchQuery) -> Seq<
    FileNameSearchIndexRecord,
>
    decreases records.len(),
{
    if records.len() == 0 {
        seq![]
    } else {
        let before = selected_entries(records.drop_last(), query);
        if records.last().matches_query(query) {
            before.push(records.last())
        } else {
            before
        }
    }
}

/// The file records that `query` selects, in order.
pub open spec fn selected_records(records: Seq<FileIndexRecord>, query: SearchQuery) -> Seq<
    FileIndexRecord,
>
    decreases records.len(),
{
    if records.len() == 0 {
        seq![]
    } else {
        let before = selected_records(records.drop_last(), query);
        if record_matches(records.last(), query) {
            before.push(records.last())
        } else {
            before
        }
    }
}

/// The first `n` elements of `s`, or all of them when there are fewer.
pub open spec fn first_n<A>(s: Seq<A>, n: int) -> Seq<A> {
    if n < s.len() {
        s.take(n)
    } else {
        s
    }
}

/// `h` is the file-name hit for the file with these public fields.
pub open spec fn is_filename_hit(
    h: SearchHit,
    physical_path: String,
    file_name: String,
    extension: String,
    modified_at: u64,
    size_bytes: u64,
) -> bool {
    &&& h.physical_path == physical_path
    &&& h.file_name == file_name
    &&& h.extension == extension
    &&& h.modified_at == modified_at
    &&& h.size_bytes == size_bytes
    &&& h.hit_source@ == HIT_SOURCE_FILENAME@
    &&& h.snippet is None
}

// ---------------------------------------------------------------------------
// Lemmas
// ---------------------------------------------------------------------------
proof fn lemma_selected_entries_prefix(records: Seq<FileNameSearchIndexRecord>, query: SearchQuery, i: int)
    requires
        0 <= i <= records.len(),
    ensures
        selected_entries(records.take(i), query).len() <= selected_entries(records, query).len(),
        selected_entries(records.take(i), query) == selected_entries(records, query).take(
            selected_entries(records.take(i), query).len() as int,
        ),
    decreases records.len() - i,
{
    if i == records.len() {
        assert(records.take(i) =~= records);
        let s = selected_entries(records, query);
        assert(s.take(s.len() as int) =~= s);
    } else {
        lemma_selected_entries_prefix(records, query, i + 1);
        assert(records.take(i + 1).drop_last() =~= records.take(i));
        let a = selected_entries(records.take(i), query);
        let b = selected_entries(records.take(i + 1), query);
        let s = selected_entries(records, query);
        assert(a == b.take(a.len() as int)) by {
            assert(b.take(a.len() as int) =~= a);
        }
        assert(b.take(a.len() as int) =~= s.take(a.len() as int));
    }
}

pub proof fn lemma_index_selection(
    index: Seq<FileNameSearchIndexRecord>,
    records: Seq<FileIndexRecord>,
    query: SearchQuery,
)
    requires
        index.len() == records.len(),
        forall|i: int| 0 <= i < index.len() ==> #[trigger] index[i].indexes(records[i]),
    ensures
        selected_entries(index, query).len() == selected_records(records, query).len(),
        forall|i: int|
            0 <= i < selected_entries(index, query).len() ==> #[trigger] selected_entries(
                index,
                query,
            )[i].indexes(selected_records(records, query)[i]),
    decreases index.len(),
{
    if index.len() > 0 {
        lemma_index_selection(index.drop_last(), records.drop_last(), query);
        assert(index.last().indexes(records.last()));
    }
}

// ---------------------------------------------------------------------------
// Executable search
// ---------------------------------------------------------------------------
struct NormalizedSearchQuery {
    name: Option<Vec<char>>,
    extension: Option<String>,
    text: Option<Vec<char>>,
}

fn lower_opt(value: &Option<String>) -> (r: Option<Vec<char>>)
    ensures
        match value {
            Some(v) => r matches Some(l) && l@ == lower_seq(v@),
            None => r is None,
        },
{
    match value {
        Some(v) => Some(lower_chars_of(v.as_str())),
        None => None,
    }
}

impl NormalizedSearchQuery {
    spec fn represents(&self, query: SearchQuery) -> bool {
        &&& (match query.name {
            Some(n) => self.name matches Some(l) && l@ == lower_seq(n@),
            None => self.name is None,
        })
        &&& (match query.extension {
            Some(e) => self.extension matches Some(l) && l@ == search_extension(e@),
            None => self.extension is None,
        })
        &&& (match query.text {
            Some(t) => self.text matches Some(l) && l@ == lower_seq(t@),
            None => self.text is None,
        })
    }

    fn from_query(query: &SearchQuery) -> (r: Self)
        ensures
            r.represents(*query),
            query_key_lowercased(*query),
    {
        Self {
            name: lower_opt(&query.name),
            extension: match &query.extension {
                Some(value) => Some(normalize_extension(value.as_str())),
                None => None,
            },
            text: lower_opt(&query.text),
        }
    }
}

fn matches_query(record: &FileNameSearchIndexRecord, query: &NormalizedSearchQuery) -> (r: bool)
    requires
        exists|q: SearchQuery| query.represents(q),
    ensures
        forall|q: SearchQuery| query.represents(q) ==> r == record.matches_query(q),
{
    if let Some(extension) = &query.extension {
        if record.normalized.extension != *extension {
            return false;
        }
    }
    if let Some(name) = &query.name {
        if !contains_chars(&record.normalized.file_name, name) {
            return false;
        }
    }
    if let Some(text) = &query.text {
        if !contains_chars(&record.normalized.file_name, text) && !contains_chars(
            &record.normalized.path,
            text,
        ) {
            return false;
        }
    }
    true
}

/// The extension key of file-name search.
fn normalize_extension(value: &str) -> (r: String)
    ensures
        r@ == search_extension(value@),
        ascii_key_lowercased(value@),
{
    let chars = chars_of(value);
    let trimmed = trim_chars(&chars);
    let undotted = trim_start_matches_char(&trimmed, '.');
    let s = string_of(&undotted);
    to_lowercase(s.as_str())
}

impl FileNameSearchIndexRecord {
    pub fn from_file_record(record: &FileIndexRecord) -> (r: Self)
        ensures
            r.indexes(*record),
            ascii_key_lowercased(record.extension@),
    {
        Self {
            physical_path: record.physical_path.clone(),
            file_name: record.file_name.clone(),
            extension: record.extension.clone(),
            modified_at: record.modified_at,
            size_bytes: record.size_bytes,
            normalized: NormalizedNames {
                path: lower_chars_of(record.physical_path.as_str()),
                file_name: lower_chars_of(record.file_name.as_str()),
                extension: normalize_extension(record.extension.as_str()),
            },
        }
    }

    fn to_hit(&self) -> (h: SearchHit)
        ensures
            is_filename_hit(
                h,
                self.physical_path,
                self.file_name,
                self.extension,
                self.modified_at,
                self.size_bytes,
            ),
    {
        SearchHit {
            physical_path: self.physical_path.clone(),
            file_name: self.file_name.clone(),
            extension: self.extension.clone(),
            modified_at: self.modified_at,
            size_bytes: self.size_bytes,
            hit_source: HIT_SOURCE_FILENAME.to_owned(),
            snippet: None,
        }
    }
}

/// The file-name index of `records`, entry by entry.
pub fn build_file_name_search_index(records: &[FileIndexRecord]) -> (r: Vec<FileNameSearchIndexRecord>)
    ensures
        r@.len() == records@.len(),
        forall|i: int| 0 <= i < records@.len() ==> #[trigger] r@[i].indexes(records@[i]),
        forall|i: int| 0 <= i < records@.len() ==> ascii_key_lowercased(#[trigger] records@[i].extension@),
{
    let mut index: Vec<FileNameSearchIndexRecord> = Vec::new();
    let mut i: usize = 0;
    while i < records.len()
        invariant
            i <= records@.len(),
            index@.len() == i,
            forall|k: int| 0 <= k < i ==> #[trigger] index@[k].indexes(records@[k]),
            forall|k: int| 0 <= k < i ==> ascii_key_lowercased(#[trigger] records@[k].extension@),
        decreases records.len() - i,
    {
        index.push(FileNameSearchIndexRecord::from_file_record(&records[i]));
        i = i + 1;
    }
    index
}

/// The file-name hits of `query`: the first `limit` index entries that it
/// selects, in index order.
pub fn search_file_name_index(
    records: &[FileNameSearchIndexRecord],
    query: &SearchQuery,
    limit: usize,
) -> (r: Vec<SearchHit>)
    ensures
        r@.len() == first_n(selected_entries(records@, *query), limit as int).len(),
        forall|i: int|
            0 <= i < r@.len() ==> {
                let e = #[trigger] first_n(selected_entries(records@, *query), limit as int)[i];
                is_filename_hit(
                    r@[i],
                    e.physical_path,
                    e.file_name,
                    e.extension,
                    e.modified_at,
                    e.size_bytes,
                )
            },
        query_key_lowercased(*query),
{
    let normalized = NormalizedSearchQuery::from_query(query);
    let mut hits: Vec<SearchHit> = Vec::new();
    let mut i: usize = 0;
    while i < records.len() && hits.len() < limit
        invariant
            i <= records@.len(),
            normalized.represents(*query),
            hits@.len() == selected_entries(records@.take(i as int), *query).len(),
            hits@.len() <= limit,
            forall|k: int|
                0 <= k < hits@.len() ==> {
                    let e = #[trigger] selected_entries(records@.take(i as int), *query)[k];
                    is_filename_hit(
                        hits@[k],
                        e.physical_path,
                        e.file_name,
                        e.extension,
                        e.modified_at,
                        e.size_bytes,
                    )
                },
        decreases records.len() - i,
    {
        assert(records@.take(i + 1).drop_last() =~= records@.take(i as int));
        if matches_query(&records[i], &normalized) {
            hits.push(records[i].to_hit());
        }
        i = i + 1;
    }
    proof {
        lemma_selected_entries_prefix(records@, *query, i as int);
        let all = selected_entries(records@, *query);
        let part = selected_entries(records@.take(i as int), *query);
        if i == records@.len() {
            assert(records@.take(i as int) =~= records@);
        } else {
            assert(part.len() == limit);
        }
        assert(first_n(all, limit as int) =~= part);
    }
    hits
}

/// The file-name hits of `query` among `records`: the first `limit` records
/// that it selects, in order.
pub fn search_file_names(records: &[FileIndexRecord], query: &SearchQuery, limit: usize) -> (r: Vec<
    SearchHit,
>)
    ensures
        r@.len() == first_n(selected_records(records@, *query), limit as int).len(),
        forall|i: int|
            0 <= i < r@.len() ==> {
                let e = #[trigger] first_n(selected_records(records@, *query), limit as int)[i];
                is_filename_hit(
                    r@[i],
                    e.physical_path,
                    e.file_name,
                    e.extension,
                    e.modified_at,
                    e.size_bytes,
                )
            },
        query_key_lowercased(*query),
        forall|i: int| 0 <= i < records@.len() ==> ascii_key_lowercased(#[trigger] records@[i].extension@),
{
    let index = build_file_name_search_index(records);
    proof {
        lemma_indexes_match(index@, records@, *query);
        lemma_index_selection(index@, records@, *query);
    }
    let hits = search_file_name_index(&index, query, limit);
    proof {
        let a = first_n(selected_entries(index@, *query), limit as int);
        let b = first_n(selected_records(records@, *query), limit as int);
        assert forall|i: int| 0 <= i < hits@.len() implies {
            let e = #[trigger] b[i];
            is_filename_hit(hits@[i], e.physical_path, e.file_name, e.extension, e.modified_at, e.size_bytes)
        } by {
            assert(a[i] == selected_entries(index@, *query)[i]);
            assert(b[i] == selected_records(records@, *query)[i]);
            assert(selected_entries(index@, *query)[i].indexes(selected_records(records@, *query)[i]));
        }
    }
    hits
}

proof fn lemma_indexes_match(
    index: Seq<FileNameSearchIndexRecord>,
    records: Seq<FileIndexRecord>,
    query: SearchQuery,
)
    requires
        index.len() == records.len(),
        forall|i: int| 0 <= i < index.len() ==> #[trigger] index[i].indexes(records[i]),
    ensures
        forall|i: int|
            0 <= i < index.len() ==> #[trigger] index[i].matches_query(query) == record_matches(
                records[i],
                query,
            ),
{
    assert forall|i: int| 0 <= i < index.len() implies #[trigger] index[i].matches_query(query)
        == record_matches(records[i], query) by {
        assert(index[i].indexes(records[i]));
    }
}

} // verus!

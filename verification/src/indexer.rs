//! The indexing funnel: which files enter the index, which of them have
//! their content parsed, and the queue of files waiting for parsing.
//!
//! Roots written as `~/...` are expanded with the home directory, which the
//! caller passes in (`None` when it is unknown).
use vstd::prelude::*;
use std::collections::VecDeque;
use vstd::utf8::{valid_utf8};
use crate::json_fields::{
    after_marker, bool_field, number_field, read_after_marker,
    read_bool_field, read_number_field, read_string_array_field, read_string_field,
    string_array_field, string_field, strings_view,
};
use crate::parsers::{registry_extension, ParserRegistry};
use crate::text::{
    ascii_lowercase, chars_of, concat_chars, contains_chars, contains_seq, decode_utf8_bytes,
    lower_chars_of, lower_seq, rfind_char, rfind_char_index, starts_with, starts_with_chars,
    string_of, sub_chars,
};

verus! {

// ---------------------------------------------------------------------------
// Types
// ---------------------------------------------------------------------------
#[derive(Debug, Clone, Copy, PartialEq, Eq)]
pub struct ContentIndexPolicy {
    pub enabled: bool,
    pub batch_size: u64,
    pub snippet_radius: u64,
    pub default_limit: u64,
}

impl ContentIndexPolicy {
    /// The content index of a policy that configures none: switched off.
    pub fn disabled() -> (r: Self)
        ensures
            r == (ContentIndexPolicy {
                enabled: false,
                batch_size: 0,
                snippet_radius: 0,
                default_limit: 0,
            }),
    {
        ContentIndexPolicy { enabled: false, batch_size: 0, snippet_radius: 0, default_limit: 0 }
    }
}

#[derive(Debug, Clone, PartialEq, Eq)]
pub struct IndexerPolicy {
    pub physical_id: String,
    pub professional_description: String,
    pub scan_roots: Vec<String>,
    pub opt_in_watch_roots: Vec<String>,
    pub exclude_path_fragments: Vec<String>,
    pub max_parse_size_bytes: u64,
    pub text_extensions: Vec<String>,
    pub encrypted_extensions: Vec<String>,
    pub parse_error_code: String,
    pub content_index: ContentIndexPolicy,
}

#[derive(Debug, Clone, PartialEq, Eq)]
pub struct IndexerPolicyParseError {
    pub field: &'static str,
}

#[derive(Debug, Clone, PartialEq, Eq)]
pub struct FileSystemEntry {
    pub physical_path: String,
    pub is_directory: bool,
    pub size_bytes: u64,
    pub modified_at: u64,
}

#[derive(Debug, Clone, Copy, PartialEq, Eq, Structural)]
pub enum ContentAction {
    QueueParse,
    FilenameOnly,
}

#[derive(Debug, Clone, PartialEq, Eq)]
pub enum ParseStatus {
    Parsed,
    ParseError { code: String },
}

#[derive(Debug, Clone, PartialEq, Eq)]
pub struct FileIndexRecord {
    pub physical_path: String,
    pub file_name: String,
    pub extension: String,
    pub modified_at: u64,
    pub size_bytes: u64,
    pub content_action: ContentAction,
}

#[derive(Debug, Clone, PartialEq, Eq)]
pub enum FsEvent {
    Created { path: String, size_bytes: u64, modified_at: u64 },
    Modified { path: String, size_bytes: u64, modified_at: u64 },
    Removed { path: String },
}

/// Files waiting for their content to be parsed, first in first out.
#[derive(Debug)]
pub struct ParseQueue {
    records: VecDeque<FileIndexRecord>,
}

// ---------------------------------------------------------------------------
// Specifications
// ---------------------------------------------------------------------------
pub open spec fn opt_str(o: Option<&str>) -> Option<Seq<char>> {
    match o {
        Some(s) => Some(s@),
        None => None,
    }
}

/// A root with a leading `~/` expanded to the home directory, when known.
pub open spec fn expanded(path: Seq<char>, home: Option<Seq<char>>) -> Seq<char> {
    if starts_with(path, seq!['~', '/']) && home is Some {
        home->0 + seq!['/'] + path.skip(2)
    } else {
        path
    }
}

/// `path` lies under one of `roots` (a plain prefix test on the expanded root).
pub open spec fn under_any_root(path: Seq<char>, roots: Seq<String>, home: Option<Seq<char>>) -> bool {
    exists|i: int| 0 <= i < roots.len() && starts_with(path, expanded(#[trigger] roots[i]@, home))
}

/// `path` contains one of the excluded fragments.
pub open spec fn excluded(path: Seq<char>, fragments: Seq<String>) -> bool {
    exists|i: int| 0 <= i < fragments.len() && contains_seq(path, #[trigger] fragments[i]@)
}

/// The last `/`-separated component of `path`.
pub open spec fn file_name_spec(path: Seq<char>) -> Seq<char> {
    match rfind_char(path, '/') {
        Some(i) => path.skip(i + 1),
        None => path,
    }
}

/// The extension of the file name: a dot and the ASCII-lowercased text after
/// the last dot; empty when the name has no dot.
pub open spec fn extension_spec(path: Seq<char>) -> Seq<char> {
    let name = file_name_spec(path);
    match rfind_char(name, '.') {
        Some(i) => seq!['.'] + lower_seq(name.skip(i + 1)),
        None => seq![],
    }
}

/// Content is parsed unless the file is larger than the limit or has an
/// encrypted extension.
pub open spec fn content_action_for(policy: IndexerPolicy, size_bytes: u64, extension: Seq<char>) -> ContentAction {
    if size_bytes > policy.max_parse_size_bytes || (exists|i: int|
        0 <= i < policy.encrypted_extensions@.len() && #[trigger] policy.encrypted_extensions@[i]@
            == extension) {
        ContentAction::FilenameOnly
    } else {
        ContentAction::QueueParse
    }
}

/// `r` is the index record of `entry`.
pub open spec fn is_record_of(r: FileIndexRecord, policy: IndexerPolicy, entry: FileSystemEntry) -> bool {
    &&& r.physical_path@ == entry.physical_path@
    &&& r.file_name@ == file_name_spec(entry.physical_path@)
    &&& r.extension@ == extension_spec(entry.physical_path@)
    &&& r.modified_at == entry.modified_at
    &&& r.size_bytes == entry.size_bytes
    &&& r.content_action == content_action_for(
        policy,
        entry.size_bytes,
        extension_spec(entry.physical_path@),
    )
}

/// The first-layer scan keeps files (not directories) under a scan root that
/// no excluded fragment matches.
pub open spec fn scan_keeps(policy: IndexerPolicy, entry: FileSystemEntry, home: Option<Seq<char>>) -> bool {
    &&& !entry.is_directory
    &&& under_any_root(entry.physical_path@, policy.scan_roots@, home)
    &&& !excluded(entry.physical_path@, policy.exclude_path_fragments@)
}

/// The entries that the first-layer scan keeps, in their order.
pub open spec fn scanned_entries(
    policy: IndexerPolicy,
    entries: Seq<FileSystemEntry>,
    home: Option<Seq<char>>,
) -> Seq<FileSystemEntry>
    decreases entries.len(),
{
    if entries.len() == 0 {
        seq![]
    } else {
        let before = scanned_entries(policy, entries.drop_last(), home);
        if scan_keeps(policy, entries.last(), home) {
            before.push(entries.last())
        } else {
            before
        }
    }
}

/// The file that a created or modified event reports.
pub open spec fn event_entry(event: FsEvent) -> Option<FileSystemEntry> {
    match event {
        FsEvent::Created { path, size_bytes, modified_at } => Some(
            FileSystemEntry { physical_path: path, is_directory: false, size_bytes, modified_at },
        ),
        FsEvent::Modified { path, size_bytes, modified_at } => Some(
            FileSystemEntry { physical_path: path, is_directory: false, size_bytes, modified_at },
        ),
        FsEvent::Removed { .. } => None,
    }
}

/// The file that an event makes the index update: a created or modified file
/// under an opt-in watch root that no excluded fragment matches.
pub open spec fn watched_entry(policy: IndexerPolicy, event: FsEvent, home: Option<Seq<char>>) -> Option<
    FileSystemEntry,
> {
    match event_entry(event) {
        Some(e) => if under_any_root(e.physical_path@, policy.opt_in_watch_roots@, home)
            && !excluded(e.physical_path@, policy.exclude_path_fragments@) {
            Some(e)
        } else {
            None
        },
        None => None,
    }
}

pub open spec fn entry_action(policy: IndexerPolicy, e: FileSystemEntry) -> ContentAction {
    content_action_for(policy, e.size_bytes, extension_spec(e.physical_path@))
}

/// The event puts a file on the parse queue.
pub open spec fn event_queues(policy: IndexerPolicy, event: FsEvent, home: Option<Seq<char>>) -> bool {
    match watched_entry(policy, event, home) {
        Some(e) => entry_action(policy, e) == ContentAction::QueueParse,
        None => false,
    }
}

/// The files that a series of events puts on the parse queue, in order.
pub open spec fn queued_entries(policy: IndexerPolicy, events: Seq<FsEvent>, home: Option<Seq<char>>) -> Seq<
    FileSystemEntry,
>
    decreases events.len(),
{
    if events.len() == 0 {
        seq![]
    } else {
        let before = queued_entries(policy, events.drop_last(), home);
        if event_queues(policy, events.last(), home) {
            before.push(watched_entry(policy, events.last(), home)->0)
        } else {
            before
        }
    }
}

/// `after` is `before` with the records of `entries` appended.
pub open spec fn appended_records(
    policy: IndexerPolicy,
    before: Seq<FileIndexRecord>,
    after: Seq<FileIndexRecord>,
    entries: Seq<FileSystemEntry>,
) -> bool {
    &&& after.len() == before.len() + entries.len()
    &&& after.take(before.len() as int) == before
    &&& forall|i: int|
        0 <= i < entries.len() ==> is_record_of(
            #[trigger] after[before.len() + i],
            policy,
            entries[i],
        )
}

// ---------------------------------------------------------------------------
// Reading the policy
// ---------------------------------------------------------------------------
pub open spec fn lowered_all(v: Seq<Seq<char>>) -> Seq<Seq<char>> {
    v.map_values(|s: Seq<char>| lower_seq(s))
}

/// The first malformed field of the optional `content_index` section.
pub open spec fn content_index_error(payload: Seq<char>) -> Option<Seq<char>> {
    match after_marker(payload, "content_index"@) {
        None => None,
        Some(section) => if bool_field(section, "enabled"@) is None {
            Some("enabled"@)
        } else if number_field(section, "batch_size"@, u64::MAX as nat) is None {
            Some("batch_size"@)
        } else if number_field(section, "snippet_radius"@, u64::MAX as nat) is None {
            Some("snippet_radius"@)
        } else if number_field(section, "default_limit"@, u64::MAX as nat) is None {
            Some("default_limit"@)
        } else {
            None
        },
    }
}

/// The content-index settings that the payload gives: those of its
/// `content_index` section, switched off when there is none.
pub open spec fn content_index_read_from(c: ContentIndexPolicy, payload: Seq<char>) -> bool {
    match after_marker(payload, "content_index"@) {
        None => c == ContentIndexPolicy {
            enabled: false,
            batch_size: 0,
            snippet_radius: 0,
            default_limit: 0,
        },
        Some(section) => {
            &&& bool_field(section, "enabled"@) == Some(c.enabled)
            &&& number_field(section, "batch_size"@, u64::MAX as nat) == Some(c.batch_size as nat)
            &&& number_field(section, "snippet_radius"@, u64::MAX as nat) == Some(
                c.snippet_radius as nat,
            )
            &&& number_field(section, "default_limit"@, u64::MAX as nat) == Some(
                c.default_limit as nat,
            )
        },
    }
}

/// The first field, in reading order, that the payload does not hold in the
/// expected form.
pub open spec fn indexer_policy_error(payload: Seq<char>) -> Option<Seq<char>> {
    if string_field(payload, "physical_id"@) is None {
        Some("physical_id"@)
    } else if string_field(payload, "professional_description"@) is None {
        Some("professional_description"@)
    } else if string_array_field(payload, "scan_roots"@) is None {
        Some("scan_roots"@)
    } else if string_array_field(payload, "opt_in_watch_roots"@) is None {
        Some("opt_in_watch_roots"@)
    } else if string_array_field(payload, "exclude_path_fragments"@) is None {
        Some("exclude_path_fragments"@)
    } else if number_field(payload, "max_parse_size_bytes"@, u64::MAX as nat) is None {
        Some("max_parse_size_bytes"@)
    } else if string_array_field(payload, "text_extensions"@) is None {
        Some("text_extensions"@)
    } else if string_array_field(payload, "encrypted_extensions"@) is None {
        Some("encrypted_extensions"@)
    } else if string_field(payload, "parse_error_code"@) is None {
        Some("parse_error_code"@)
    } else {
        content_index_error(payload)
    }
}

/// Every field of `p` holds what the payload gives for it; the extension
/// lists are ASCII-lowercased.
pub open spec fn indexer_policy_read_from(p: IndexerPolicy, payload: Seq<char>) -> bool {
    &&& string_field(payload, "physical_id"@) == Some(p.physical_id@)
    &&& string_field(payload, "professional_description"@) == Some(p.professional_description@)
    &&& string_array_field(payload, "scan_roots"@) == Some(strings_view(p.scan_roots@))
    &&& string_array_field(payload, "opt_in_watch_roots"@) == Some(
        strings_view(p.opt_in_watch_roots@),
    )
    &&& string_array_field(payload, "exclude_path_fragments"@) == Some(
        strings_view(p.exclude_path_fragments@),
    )
    &&& number_field(payload, "max_parse_size_bytes"@, u64::MAX as nat) == Some(
        p.max_parse_size_bytes as nat,
    )
    &&& string_array_field(payload, "text_extensions"@) matches Some(v) && strings_view(
        p.text_extensions@,
    ) == lowered_all(v)
    &&& string_array_field(payload, "encrypted_extensions"@) matches Some(v) && strings_view(
        p.encrypted_extensions@,
    ) == lowered_all(v)
    &&& string_field(payload, "parse_error_code"@) == Some(p.parse_error_code@)
    &&& content_index_read_from(p.content_index, payload)
}

fn extract_json_string(payload: &Vec<char>, field: &'static str) -> (r: Result<
    String,
    IndexerPolicyParseError,
>)
    ensures
        r matches Ok(v) ==> string_field(payload@, field@) == Some(v@),
        r matches Err(e) ==> string_field(payload@, field@) is None && e.field == field,
{
    match read_string_field(payload, field) {
        Some(v) => Ok(v),
        None => Err(IndexerPolicyParseError { field }),
    }
}

fn extract_json_u64(payload: &Vec<char>, field: &'static str) -> (r: Result<u64, IndexerPolicyParseError>)
    ensures
        r matches Ok(v) ==> number_field(payload@, field@, u64::MAX as nat) == Some(v as nat),
        r matches Err(e) ==> number_field(payload@, field@, u64::MAX as nat) is None && e.field
            == field,
{
    match read_number_field(payload, field, u64::MAX) {
        Some(v) => Ok(v),
        None => Err(IndexerPolicyParseError { field }),
    }
}

fn extract_json_bool(payload: &Vec<char>, field: &'static str) -> (r: Result<bool, IndexerPolicyParseError>)
    ensures
        r matches Ok(v) ==> bool_field(payload@, field@) == Some(v),
        r matches Err(e) ==> bool_field(payload@, field@) is None && e.field == field,
{
    match read_bool_field(payload, field) {
        Some(v) => Ok(v),
        None => Err(IndexerPolicyParseError { field }),
    }
}

fn extract_json_string_array(payload: &Vec<char>, field: &'static str) -> (r: Result<
    Vec<String>,
    IndexerPolicyParseError,
>)
    ensures
        r matches Ok(v) ==> string_array_field(payload@, field@) == Some(strings_view(v@)),
        r matches Err(e) ==> string_array_field(payload@, field@) is None && e.field == field,
{
    match read_string_array_field(payload, field) {
        Some(v) => Ok(v),
        None => Err(IndexerPolicyParseError { field }),
    }
}

/// Every string ASCII-lowercased.
fn lowercase_all(values: Vec<String>) -> (r: Vec<String>)
    ensures
        strings_view(r@) == lowered_all(strings_view(values@)),
{
    let mut r: Vec<String> = Vec::new();
    let mut i: usize = 0;
    while i < values.len()
        invariant
            i <= values.len(),
            r@.len() == i,
            forall|k: int| 0 <= k < i ==> #[trigger] r@[k]@ == lower_seq(values@[k]@),
        decreases values.len() - i,
    {
        let lowered = lower_chars_of(values[i].as_str());
        r.push(string_of(&lowered));
        i = i + 1;
    }
    assert(strings_view(r@) =~= lowered_all(strings_view(values@)));
    r
}

fn extract_content_index(payload: &Vec<char>) -> (r: Result<ContentIndexPolicy, IndexerPolicyParseError>)
    ensures
        r is Ok <==> content_index_error(payload@) is None,
        r matches Ok(c) ==> content_index_read_from(c, payload@),
        r matches Err(e) ==> content_index_error(payload@) == Some(e.field@),
{
    match read_after_marker(payload, "content_index") {
        None => Ok(ContentIndexPolicy::disabled()),
        Some(section) => Ok(
            ContentIndexPolicy {
                enabled: extract_json_bool(&section, "enabled")?,
                batch_size: extract_json_u64(&section, "batch_size")?,
                snippet_radius: extract_json_u64(&section, "snippet_radius")?,
                default_limit: extract_json_u64(&section, "default_limit")?,
            },
        ),
    }
}

impl IndexerPolicy {
    /// Reads the policy from its JSON configuration.  The extension lists are
    /// ASCII-lowercased.  Without a `content_index` section, content indexing
    /// is switched off.  Fails with the first field, in declaration order, that
    /// is missing or malformed.
    pub fn from_json(payload: &str) -> (r: Result<Self, IndexerPolicyParseError>)
        ensures
            r is Ok <==> indexer_policy_error(payload@) is None,
            r matches Ok(p) ==> indexer_policy_read_from(p, payload@),
            r matches Err(e) ==> indexer_policy_error(payload@) == Some(e.field@),
    {
        let text = chars_of(payload);
        Ok(
            Self {
                physical_id: extract_json_string(&text, "physical_id")?,
                professional_description: extract_json_string(&text, "professional_description")?,
                scan_roots: extract_json_string_array(&text, "scan_roots")?,
                opt_in_watch_roots: extract_json_string_array(&text, "opt_in_watch_roots")?,
                exclude_path_fragments: extract_json_string_array(&text, "exclude_path_fragments")?,
                max_parse_size_bytes: extract_json_u64(&text, "max_parse_size_bytes")?,
                text_extensions: lowercase_all(extract_json_string_array(&text, "text_extensions")?),
                encrypted_extensions: lowercase_all(
                    extract_json_string_array(&text, "encrypted_extensions")?,
                ),
                parse_error_code: extract_json_string(&text, "parse_error_code")?,
                content_index: extract_content_index(&text)?,
            },
        )
    }
}

// ---------------------------------------------------------------------------
// Entries, records and the queue
// ---------------------------------------------------------------------------
impl FileSystemEntry {
    pub fn file(path: &str, size_bytes: u64, modified_at: u64) -> (r: Self)
        ensures
            r.physical_path@ == path@,
            !r.is_directory,
            r.size_bytes == size_bytes,
            r.modified_at == modified_at,
    {
        Self { physical_path: path.to_owned(), is_directory: false, size_bytes, modified_at }
    }

    pub fn directory(path: &str) -> (r: Self)
        ensures
            r.physical_path@ == path@,
            r.is_directory,
            r.size_bytes == 0,
            r.modified_at == 0,
    {
        Self { physical_path: path.to_owned(), is_directory: true, size_bytes: 0, modified_at: 0 }
    }
}

impl View for ParseQueue {
    type V = Seq<FileIndexRecord>;

    closed spec fn view(&self) -> Seq<FileIndexRecord> {
        self.records@
    }
}

impl Default for ParseQueue {
    fn default() -> (r: Self)
        ensures
            r@ == Seq::<FileIndexRecord>::empty(),
    {
        Self::new()
    }
}

impl ParseQueue {
    pub fn new() -> (r: Self)
        ensures
            r@ == Seq::<FileIndexRecord>::empty(),
    {
        Self { records: VecDeque::new() }
    }

    pub fn push(&mut self, record: FileIndexRecord)
        ensures
            final(self)@ == old(self)@.push(record),
    {
        self.records.push_back(record);
    }

    pub fn pop(&mut self) -> (r: Option<FileIndexRecord>)
        ensures
            old(self)@.len() == 0 ==> r is None && final(self)@ == old(self)@,
            old(self)@.len() > 0 ==> r == Some(old(self)@[0]) && final(self)@ == old(
                self,
            )@.drop_first(),
    {
        self.records.pop_front()
    }

    pub fn len(&self) -> (r: usize)
        ensures
            r == self@.len(),
    {
        self.records.len()
    }
}

// ---------------------------------------------------------------------------
// Path helpers
// ---------------------------------------------------------------------------
/// A root with a leading `~/` expanded to `home`, when known.
pub fn expand_home(path: &str, home: Option<&str>) -> (r: String)
    ensures
        r@ == expanded(path@, opt_str(home)),
{
    let chars = chars_of(path);
    let prefix = vec!['~', '/'];
    assert(prefix@ =~= seq!['~', '/']);
    if starts_with_chars(&chars, &prefix) {
        if let Some(h) = home {
            let home_chars = chars_of(h);
            let slash = vec!['/'];
            let n = chars.len();
            let rest = sub_chars(&chars, 2, n);
            let joined = concat_chars(&home_chars, &slash);
            let joined = concat_chars(&joined, &rest);
            assert(joined@ =~= h@ + seq!['/'] + chars@.skip(2));
            return string_of(&joined);
        }
    }
    string_of(&chars)
}

fn is_under_any_root(path: &Vec<char>, roots: &Vec<String>, home: Option<&str>) -> (r: bool)
    ensures
        r == under_any_root(path@, roots@, opt_str(home)),
{
    let mut i: usize = 0;
    while i < roots.len()
        invariant
            i <= roots@.len(),
            forall|k: int|
                0 <= k < i ==> !starts_with(path@, expanded(#[trigger] roots@[k]@, opt_str(home))),
        decreases roots.len() - i,
    {
        let root = expand_home(roots[i].as_str(), home);
        let root_chars = chars_of(root.as_str());
        if starts_with_chars(path, &root_chars) {
            assert(starts_with(path@, expanded(roots@[i as int]@, opt_str(home))));
            return true;
        }
        i = i + 1;
    }
    false
}

fn is_excluded(path: &Vec<char>, fragments: &Vec<String>) -> (r: bool)
    ensures
        r == excluded(path@, fragments@),
{
    let mut i: usize = 0;
    while i < fragments.len()
        invariant
            i <= fragments@.len(),
            forall|k: int| 0 <= k < i ==> !contains_seq(path@, #[trigger] fragments@[k]@),
        decreases fragments.len() - i,
    {
        let fragment = chars_of(fragments[i].as_str());
        if contains_chars(path, &fragment) {
            assert(contains_seq(path@, fragments@[i as int]@));
            return true;
        }
        i = i + 1;
    }
    false
}

fn file_name_of(path: &Vec<char>) -> (r: Vec<char>)
    ensures
        r@ == file_name_spec(path@),
{
    let n = path.len();
    match rfind_char_index(path, '/') {
        Some(i) => {
            proof {
                crate::text::lemma_rfind_char(path@, '/');
            }
            sub_chars(path, i + 1, n)
        },
        None => sub_chars(path, 0, n),
    }
}

pub(crate) fn extension_of(path: &Vec<char>) -> (r: Vec<char>)
    ensures
        r@ == extension_spec(path@),
{
    let name = file_name_of(path);
    let n = name.len();
    match rfind_char_index(&name, '.') {
        Some(i) => {
            proof {
                crate::text::lemma_rfind_char(name@, '.');
            }
            let tail = sub_chars(&name, i + 1, n);
            let lowered = ascii_lowercase(&tail);
            let dot = vec!['.'];
            assert(dot@ =~= seq!['.']);
            concat_chars(&dot, &lowered)
        },
        None => Vec::new(),
    }
}

pub(crate) fn contains_string(values: &Vec<String>, value: &String) -> (r: bool)
    ensures
        r == exists|i: int| 0 <= i < values@.len() && #[trigger] values@[i]@ == value@,
{
    let mut i: usize = 0;
    while i < values.len()
        invariant
            i <= values@.len(),
            forall|k: int| 0 <= k < i ==> #[trigger] values@[k]@ != value@,
        decreases values.len() - i,
    {
        let same = values[i] == *value;
        if same {
            assert(values@[i as int]@ == value@);
            return true;
        }
        i = i + 1;
    }
    false
}

fn record_from_entry(policy: &IndexerPolicy, entry: FileSystemEntry) -> (r: FileIndexRecord)
    ensures
        is_record_of(r, *policy, entry),
{
    let path = chars_of(entry.physical_path.as_str());
    let extension = string_of(&extension_of(&path));
    let content_action = if entry.size_bytes > policy.max_parse_size_bytes || contains_string(
        &policy.encrypted_extensions,
        &extension,
    ) {
        ContentAction::FilenameOnly
    } else {
        ContentAction::QueueParse
    };
    FileIndexRecord {
        file_name: string_of(&file_name_of(&path)),
        extension,
        physical_path: entry.physical_path,
        modified_at: entry.modified_at,
        size_bytes: entry.size_bytes,
        content_action,
    }
}

// ---------------------------------------------------------------------------
// The funnel
// ---------------------------------------------------------------------------
/// The first layer of the scan: the records of the files under a scan root
/// that no excluded fragment matches, in the order of `entries`.
pub fn first_layer_scan(policy: &IndexerPolicy, entries: Vec<FileSystemEntry>, home: Option<&str>) -> (r: Vec<FileIndexRecord>)
    ensures
        r@.len() == scanned_entries(*policy, entries@, opt_str(home)).len(),
        forall|i: int|
            0 <= i < r@.len() ==> is_record_of(
                #[trigger] r@[i],
                *policy,
                scanned_entries(*policy, entries@, opt_str(home))[i],
            ),
{
    let mut records: Vec<FileIndexRecord> = Vec::new();
    let mut i: usize = 0;
    while i < entries.len()
        invariant
            i <= entries@.len(),
            records@.len() == scanned_entries(*policy, entries@.take(i as int), opt_str(home)).len(),
            forall|k: int|
                0 <= k < records@.len() ==> is_record_of(
                    #[trigger] records@[k],
                    *policy,
                    scanned_entries(*policy, entries@.take(i as int), opt_str(home))[k],
                ),
        decreases entries.len() - i,
    {
        let entry = &entries[i];
        assert(entries@.take(i + 1).drop_last() =~= entries@.take(i as int));
        let path = chars_of(entry.physical_path.as_str());
        if !entry.is_directory && is_under_any_root(&path, &policy.scan_roots, home)
            && !is_excluded(&path, &policy.exclude_path_fragments) {
            let record = record_from_entry(policy, entry.clone_entry());
            records.push(record);
        }
        i = i + 1;
    }
    assert(entries@.take(entries@.len() as int) =~= entries@);
    records
}

impl FileSystemEntry {
    /// A copy of the entry.
    pub fn clone_entry(&self) -> (r: Self)
        ensures
            r == *self,
    {
        Self {
            physical_path: self.physical_path.clone(),
            is_directory: self.is_directory,
            size_bytes: self.size_bytes,
            modified_at: self.modified_at,
        }
    }
}

/// The record of the file that `event` reports, when the event is a creation
/// or change under an opt-in watch root that no excluded fragment matches.
pub(crate) fn watched_record(policy: &IndexerPolicy, event: FsEvent, home: Option<&str>) -> (r: Option<FileIndexRecord>)
    ensures
        r is Some <==> watched_entry(*policy, event, opt_str(home)) is Some,
        r matches Some(rec) ==> is_record_of(
            rec,
            *policy,
            watched_entry(*policy, event, opt_str(home))->0,
        ),
{
    let (path, size_bytes, modified_at) = match event {
        FsEvent::Created { path, size_bytes, modified_at } => (path, size_bytes, modified_at),
        FsEvent::Modified { path, size_bytes, modified_at } => (path, size_bytes, modified_at),
        FsEvent::Removed { .. } => {
            return None;
        },
    };
    let chars = chars_of(path.as_str());
    if !is_under_any_root(&chars, &policy.opt_in_watch_roots, home) || is_excluded(
        &chars,
        &policy.exclude_path_fragments,
    ) {
        return None;
    }
    let entry = FileSystemEntry::file(path.as_str(), size_bytes, modified_at);
    Some(record_from_entry(policy, entry))
}

/// Puts the file that `event` reports on the parse queue when it is watched
/// and its content is to be parsed.
pub fn enqueue_fs_event(policy: &IndexerPolicy, queue: &mut ParseQueue, event: FsEvent, home: Option<&str>)
    ensures
        event_queues(*policy, event, opt_str(home)) ==> appended_records(
            *policy,
            old(queue)@,
            final(queue)@,
            seq![watched_entry(*policy, event, opt_str(home))->0],
        ),
        !event_queues(*policy, event, opt_str(home)) ==> final(queue)@ == old(queue)@,
{
    let ghost before = queue@;
    if let Some(record) = watched_record(policy, event, home) {
        if record.content_action == ContentAction::QueueParse {
            queue.push(record);
            assert(queue@.take(before.len() as int) =~= before);
        }
    }
}

/// Puts the files that `events` report on the parse queue, in order.
pub fn enqueue_fs_events(policy: &IndexerPolicy, queue: &mut ParseQueue, events: Vec<FsEvent>, home: Option<&str>)
    ensures
        appended_records(
            *policy,
            old(queue)@,
            final(queue)@,
            queued_entries(*policy, events@, opt_str(home)),
        ),
{
    let ghost before = queue@;
    let mut i: usize = 0;
    assert(events@.take(0) =~= Seq::<FsEvent>::empty());
    assert(queue@.take(before.len() as int) =~= before);
    while i < events.len()
        invariant
            i <= events@.len(),
            appended_records(
                *policy,
                before,
                queue@,
                queued_entries(*policy, events@.take(i as int), opt_str(home)),
            ),
        decreases events.len() - i,
    {
        let ghost mid = queue@;
        let ghost q = queued_entries(*policy, events@.take(i as int), opt_str(home));
        assert(events@.take(i + 1).drop_last() =~= events@.take(i as int));
        let event = events[i].clone_event();
        enqueue_fs_event(policy, queue, event, home);
        proof {
            let q2 = queued_entries(*policy, events@.take(i + 1), opt_str(home));
            if event_queues(*policy, events@[i as int], opt_str(home)) {
                assert(q2 == q.push(watched_entry(*policy, events@[i as int], opt_str(home))->0));
                lemma_append_one(
                    *policy,
                    before,
                    mid,
                    queue@,
                    q,
                    watched_entry(*policy, events@[i as int], opt_str(home))->0,
                );
            } else {
                assert(q2 == q);
            }
        }
        i = i + 1;
    }
    assert(events@.take(events@.len() as int) =~= events@);
}

proof fn lemma_append_one(
    policy: IndexerPolicy,
    before: Seq<FileIndexRecord>,
    mid: Seq<FileIndexRecord>,
    after: Seq<FileIndexRecord>,
    q: Seq<FileSystemEntry>,
    e: FileSystemEntry,
)
    requires
        appended_records(policy, before, mid, q),
        appended_records(policy, mid, after, seq![e]),
    ensures
        appended_records(policy, before, after, q.push(e)),
{
    assert(after.take(before.len() as int) =~= before) by {
        assert forall|k: int| 0 <= k < before.len() implies after[k] == before[k] by {
            assert(after.take(mid.len() as int)[k] == after[k]);
            assert(mid.take(before.len() as int)[k] == mid[k]);
        }
    }
    assert forall|k: int| 0 <= k < q.push(e).len() implies is_record_of(
        #[trigger] after[before.len() + k],
        policy,
        q.push(e)[k],
    ) by {
        if k < q.len() {
            assert(after.take(mid.len() as int)[before.len() + k] == after[before.len() + k]);
            assert(is_record_of(mid[before.len() + k], policy, q[k]));
        } else {
            assert(is_record_of(after[mid.len() + 0int], policy, seq![e][0]));
        }
    }
}

impl FsEvent {
    /// A copy of the event.
    pub fn clone_event(&self) -> (r: Self)
        ensures
            r == *self,
    {
        match self {
            FsEvent::Created { path, size_bytes, modified_at } => FsEvent::Created {
                path: path.clone(),
                size_bytes: *size_bytes,
                modified_at: *modified_at,
            },
            FsEvent::Modified { path, size_bytes, modified_at } => FsEvent::Modified {
                path: path.clone(),
                size_bytes: *size_bytes,
                modified_at: *modified_at,
            },
            FsEvent::Removed { path } => FsEvent::Removed { path: path.clone() },
        }
    }
}

/// Like `enqueue_fs_event`, but content parsing is only queued while content
/// indexing is allowed; the record of a watched file is returned either way,
/// so that its file name is still indexed.
pub fn enqueue_fs_event_with_content_gate(
    policy: &IndexerPolicy,
    queue: &mut ParseQueue,
    event: FsEvent,
    allow_content_indexing: bool,
    home: Option<&str>,
) -> (r: Option<FileIndexRecord>)
    ensures
        r is Some <==> watched_entry(*policy, event, opt_str(home)) is Some,
        r matches Some(rec) ==> is_record_of(
            rec,
            *policy,
            watched_entry(*policy, event, opt_str(home))->0,
        ),
        (allow_content_indexing && event_queues(*policy, event, opt_str(home))) ==> final(queue)@
            == old(queue)@.push(r->0),
        !(allow_content_indexing && event_queues(*policy, event, opt_str(home)))
            ==> final(queue)@ == old(queue)@,
{
    match watched_record(policy, event, home) {
        None => None,
        Some(record) => {
            if allow_content_indexing && record.content_action == ContentAction::QueueParse {
                queue.push(record.clone_record());
            }
            Some(record)
        },
    }
}

impl FileIndexRecord {
    /// A copy of the record.
    pub fn clone_record(&self) -> (r: Self)
        ensures
            r == *self,
    {
        Self {
            physical_path: self.physical_path.clone(),
            file_name: self.file_name.clone(),
            extension: self.extension.clone(),
            modified_at: self.modified_at,
            size_bytes: self.size_bytes,
            content_action: self.content_action,
        }
    }
}

pub open spec fn is_parse_error_with(r: ParseStatus, code: Seq<char>) -> bool {
    r matches ParseStatus::ParseError { code: c } && c@ == code
}

/// `extension` is, once normalized, one of the policy's text extensions.
pub open spec fn is_text_extension(policy: IndexerPolicy, extension: Seq<char>) -> bool {
    exists|i: int|
        0 <= i < policy.text_extensions@.len() && registry_extension(
            #[trigger] policy.text_extensions@[i]@,
        ) == registry_extension(extension)
}

/// Whether the bytes are text: well-formed UTF-8, or the configured error.
pub fn parse_text_content(policy: &IndexerPolicy, bytes: &[u8]) -> (r: ParseStatus)
    ensures
        valid_utf8(bytes@) ==> r == ParseStatus::Parsed,
        !valid_utf8(bytes@) ==> is_parse_error_with(r, policy.parse_error_code@),
{
    match decode_utf8_bytes(bytes) {
        Some(_) => ParseStatus::Parsed,
        None => ParseStatus::ParseError { code: policy.parse_error_code.clone() },
    }
}

/// Whether the bytes of a file with this extension are indexable text: the
/// extension must be one of the policy's text extensions and the bytes must
/// be well-formed UTF-8; otherwise the configured error.
pub fn parse_content_for_extension(policy: &IndexerPolicy, extension: &str, bytes: &[u8]) -> (r: ParseStatus)
    ensures
        is_text_extension(*policy, extension@) && valid_utf8(bytes@) ==> r == ParseStatus::Parsed,
        !(is_text_extension(*policy, extension@) && valid_utf8(bytes@)) ==> is_parse_error_with(
            r,
            policy.parse_error_code@,
        ),
{
    let registry = ParserRegistry::from_text_extensions(
        policy.text_extensions.clone(),
        policy.parse_error_code.clone(),
    );
    match registry.parse_extension(extension, bytes) {
        Ok(_) => ParseStatus::Parsed,
        Err(failure) => ParseStatus::ParseError { code: failure.code },
    }
}

// ---------------------------------------------------------------------------
// Watching
// ---------------------------------------------------------------------------
/// A source of file-system events.
pub trait FileEventWatcher {
    /// The events observed and not yet handed over, in order. A watcher
    /// that does not describe them has none.
    open spec fn pending_events(&self) -> Seq<FsEvent> {
        Seq::empty()
    }

    /// Hands over the pending events, in the order they were observed.
    fn drain_events(&mut self) -> (r: Vec<FsEvent>)
        ensures
            r@ == old(self).pending_events(),
    ;
}

/// The watcher over the policy's opt-in roots.  The platform's event stream
/// records the events it observes; draining hands them over in order.
pub struct MacOsFseventsWatcher {
    roots: Vec<String>,
    pending_events: Vec<FsEvent>,
}

impl MacOsFseventsWatcher {
    pub closed spec fn watched_roots(&self) -> Seq<String> {
        self.roots@
    }

    pub closed spec fn pending(&self) -> Seq<FsEvent> {
        self.pending_events@
    }

    pub fn new(policy: &IndexerPolicy) -> (r: Self)
        ensures
            r.watched_roots() == policy.opt_in_watch_roots@,
            r.pending() == Seq::<FsEvent>::empty(),
    {
        Self { roots: policy.opt_in_watch_roots.clone(), pending_events: Vec::new() }
    }

    pub fn roots(&self) -> (r: &[String])
        ensures
            r@ == self.watched_roots(),
    {
        self.roots.as_slice()
    }

    /// Records an event observed by the platform stream.
    pub fn record_event(&mut self, event: FsEvent)
        ensures
            final(self).pending() == old(self).pending().push(event),
            final(self).watched_roots() == old(self).watched_roots(),
    {
        self.pending_events.push(event);
    }
}

impl FileEventWatcher for MacOsFseventsWatcher {
    open spec fn pending_events(&self) -> Seq<FsEvent> {
        self.pending()
    }

    fn drain_events(&mut self) -> (r: Vec<FsEvent>)
        ensures
            r@ == old(self).pending(),
            final(self).pending() == Seq::<FsEvent>::empty(),
            final(self).watched_roots() == old(self).watched_roots(),
    {
        let mut events: Vec<FsEvent> = Vec::new();
        std::mem::swap(&mut events, &mut self.pending_events);
        events
    }
}

/// Drains the watcher once and queues what its events report.
pub fn run_watch_once<W: FileEventWatcher>(
    policy: &IndexerPolicy,
    watcher: &mut W,
    queue: &mut ParseQueue,
    home: Option<&str>,
)
    ensures
        appended_records(
            *policy,
            old(queue)@,
            final(queue)@,
            queued_entries(*policy, old(watcher).pending_events(), opt_str(home)),
        ),
{
    let events = watcher.drain_events();
    let ghost drained = events@;
    enqueue_fs_events(policy, queue, events, home);
    assert(appended_records(
        *policy,
        old(queue)@,
        queue@,
        queued_entries(*policy, drained, opt_str(home)),
    ));
}

/// The path that a created, modified or removed event names.
pub open spec fn event_path(event: FsEvent) -> Seq<char> {
    match event {
        FsEvent::Created { path, .. } => path@,
        FsEvent::Modified { path, .. } => path@,
        FsEvent::Removed { path } => path@,
    }
}

proof fn lemma_all_queued(policy: IndexerPolicy, events: Seq<FsEvent>, home: Option<Seq<char>>)
    requires
        forall|j: int| 0 <= j < events.len() ==> event_queues(policy, #[trigger] events[j], home),
    ensures
        queued_entries(policy, events, home).len() == events.len(),
        forall|j: int|
            0 <= j < events.len() ==> (#[trigger] queued_entries(policy, events, home)[j]).physical_path@
                == event_path(events[j]),
    decreases events.len(),
{
    if events.len() > 0 {
        let init = events.drop_last();
        assert forall|j: int| 0 <= j < init.len() implies event_queues(policy, #[trigger] init[j], home) by {
            assert(init[j] == events[j]);
        }
        lemma_all_queued(policy, init, home);
        assert(event_queues(policy, events[events.len() - 1], home));
        assert forall|j: int|
            0 <= j < events.len() implies (#[trigger] queued_entries(policy, events, home)[j]).physical_path@
                == event_path(events[j]) by {
            if j < init.len() {
                assert(init[j] == events[j]);
            }
        }
    }
}

/// A watch run queues every pending event that asks for parsing: when each
/// pending event is a change of a watched file to be parsed, the queue
/// grows by one record per event, for the event's path, in the order the
/// events were observed.
pub proof fn law_watch_queues_every_pending_event(
    policy: IndexerPolicy,
    before: Seq<FileIndexRecord>,
    after: Seq<FileIndexRecord>,
    pending: Seq<FsEvent>,
    home: Option<Seq<char>>,
)
    requires
        appended_records(policy, before, after, queued_entries(policy, pending, home)),
        forall|j: int| 0 <= j < pending.len() ==> event_queues(policy, #[trigger] pending[j], home),
    ensures
        after.len() == before.len() + pending.len(),
        after.take(before.len() as int) == before,
        forall|j: int|
            0 <= j < pending.len() ==> (#[trigger] after[before.len() + j]).physical_path@ == event_path(
                pending[j],
            ),
{
    lemma_all_queued(policy, pending, home);
    let entries = queued_entries(policy, pending, home);
    assert forall|j: int|
        0 <= j < pending.len() implies (#[trigger] after[before.len() + j]).physical_path@ == event_path(
            pending[j],
        ) by {
        assert(is_record_of(after[before.len() + j], policy, entries[j]));
        assert(entries[j].physical_path@ == event_path(pending[j]));
    }
}

} // verus!

//! What the application's commands compute: the request and response
//! shapes, the status and settings views, preview checks, hit filtering by
//! search mode, and the extension kinds read from the search-syntax
//! configuration.
use vstd::prelude::*;
use vstd::utf8::{decode_utf8, valid_utf8};
use crate::indexer::{
    extension_spec, is_text_extension, parse_content_for_extension,
    IndexerPolicy, ParseStatus,
};
use crate::runtime_index::IndexBuildSummary;
use crate::search::{SearchHit, SearchQuery, HIT_SOURCE_CONTENT, HIT_SOURCE_FILENAME};
use crate::content_store::store_extension;
use crate::json_fields::{after_marker, opt_string, read_after_marker, read_string_field, string_field, strings_view};
use crate::runtime_index::{are_filename_hits, opt_usize_int, shift};
use crate::indexer::FileIndexRecord;
use crate::search::search_file_names;
use crate::text::{
    ascii_lowercase, chars_equal, chars_of, decode_utf8_bytes, find_char, find_seq, lemma_find_seq,
    lower_seq, str_equal, string_from, string_of, sub_chars, trim_start_char,
    trim_start_matches_char,
};

verus! {

// ---------------------------------------------------------------------------
// Requests and responses
// ---------------------------------------------------------------------------
#[derive(Debug, Clone, PartialEq, Eq)]
pub struct SearchFileNamesRequest {
    pub query: SearchCommandQuery,
    pub limit: usize,
    pub mode: SearchMode,
}

#[derive(Debug, Clone, Copy, PartialEq, Eq, Structural)]
pub enum SearchMode {
    Filename,
    Content,
    Mixed,
}

#[derive(Debug, Clone, PartialEq, Eq)]
pub struct SearchCommandQuery {
    pub name: Option<String>,
    pub content: Option<String>,
    pub extension: Option<String>,
    pub text: Option<String>,
}

#[derive(Debug, Clone, PartialEq, Eq)]
pub struct ReadPreviewContentRequest {
    pub path: String,
}

#[derive(Debug, Clone, PartialEq, Eq)]
pub struct PreviewContent {
    pub content: String,
    pub source: String,
}

#[derive(Debug, Clone, PartialEq, Eq)]
pub struct FileActionRequest {
    pub path: String,
}

#[derive(Debug, Clone, Copy, PartialEq, Eq, Structural)]
pub struct SearchIndexStatus {
    pub indexed_files: usize,
    pub content_files: usize,
    pub parse_errors: usize,
    pub content_queue_depth: usize,
}

#[derive(Debug, Clone, PartialEq, Eq)]
pub struct IndexerPolicySettings {
    pub scan_roots: Vec<String>,
    pub watch_roots: Vec<String>,
    pub exclude_path_fragments: Vec<String>,
    pub max_parse_size_bytes: u64,
    pub text_extensions: Vec<String>,
    pub content_index: ContentIndexSettings,
}

#[derive(Debug, Clone, Copy, PartialEq, Eq, Structural)]
pub struct ContentIndexSettings {
    pub enabled: bool,
    pub batch_size: u64,
    pub snippet_radius: u64,
    pub default_limit: u64,
}

/// The source of a preview read from the file itself.
pub const PREVIEW_SOURCE_FILE: &'static str = "file";

/// The error of a preview whose file is larger than the parse limit.
pub const PREVIEW_TOO_LARGE: &'static str = "preview file exceeds configured parse size";

/// The program that opens and reveals files.
pub const OPEN_PROGRAM: &'static str = "open";

/// The flag that makes the program reveal a file instead of opening it.
pub const REVEAL_FLAG: &'static str = "-R";

impl SearchCommandQuery {
    /// The search query of the request.
    pub fn into_search_query(self) -> (r: SearchQuery)
        ensures
            r.name == self.name,
            r.content == self.content,
            r.extension == self.extension,
            r.text == self.text,
    {
        SearchQuery { name: self.name, content: self.content, extension: self.extension, text: self.text }
    }
}

impl From<IndexBuildSummary> for SearchIndexStatus {
    fn from(summary: IndexBuildSummary) -> (r: Self) {
        Self {
            indexed_files: summary.indexed_files,
            content_files: summary.content_files,
            parse_errors: summary.parse_errors,
            content_queue_depth: summary.content_queue_depth,
        }
    }
}

impl vstd::std_specs::convert::FromSpecImpl<IndexBuildSummary> for SearchIndexStatus {
    open spec fn obeys_from_spec() -> bool {
        true
    }

    open spec fn from_spec(summary: IndexBuildSummary) -> Self {
        SearchIndexStatus {
            indexed_files: summary.indexed_files,
            content_files: summary.content_files,
            parse_errors: summary.parse_errors,
            content_queue_depth: summary.content_queue_depth,
        }
    }
}

// ---------------------------------------------------------------------------
// Settings
// ---------------------------------------------------------------------------
fn clone_strings(values: &Vec<String>) -> (r: Vec<String>)
    ensures
        r@ == values@,
{
    let mut out: Vec<String> = Vec::new();
    let mut i: usize = 0;
    while i < values.len()
        invariant
            i <= values@.len(),
            out@ == values@.take(i as int),
        decreases values.len() - i,
    {
        out.push(values[i].clone());
        assert(out@ =~= values@.take(i + 1));
        i = i + 1;
    }
    assert(values@.take(values@.len() as int) =~= values@);
    out
}

/// The read-only view of the policy that the settings screen shows.
pub fn indexer_policy_to_settings(policy: &IndexerPolicy) -> (r: IndexerPolicySettings)
    ensures
        r.scan_roots@ == policy.scan_roots@,
        r.watch_roots@ == policy.opt_in_watch_roots@,
        r.exclude_path_fragments@ == policy.exclude_path_fragments@,
        r.max_parse_size_bytes == policy.max_parse_size_bytes,
        r.text_extensions@ == policy.text_extensions@,
        r.content_index == (ContentIndexSettings {
            enabled: policy.content_index.enabled,
            batch_size: policy.content_index.batch_size,
            snippet_radius: policy.content_index.snippet_radius,
            default_limit: policy.content_index.default_limit,
        }),
{
    IndexerPolicySettings {
        scan_roots: clone_strings(&policy.scan_roots),
        watch_roots: clone_strings(&policy.opt_in_watch_roots),
        exclude_path_fragments: clone_strings(&policy.exclude_path_fragments),
        max_parse_size_bytes: policy.max_parse_size_bytes,
        text_extensions: clone_strings(&policy.text_extensions),
        content_index: ContentIndexSettings {
            enabled: policy.content_index.enabled,
            batch_size: policy.content_index.batch_size,
            snippet_radius: policy.content_index.snippet_radius,
            default_limit: policy.content_index.default_limit,
        },
    }
}

// ---------------------------------------------------------------------------
// Preview
// ---------------------------------------------------------------------------
/// The extension of a path: a dot and the ASCII-lowercased text after the
/// last dot of its file name; empty when the name has no dot.
pub fn extension_of(path: &str) -> (r: String)
    ensures
        r@ == extension_spec(path@),
{
    let chars = chars_of(path);
    let ext = crate::indexer::extension_of(&chars);
    string_of(&ext)
}

/// A file of `size_bytes` bytes may be previewed when it is within the
/// policy's parse limit.
pub fn check_preview_size(policy: &IndexerPolicy, size_bytes: u64) -> (r: Result<(), String>)
    ensures
        r is Ok <==> size_bytes <= policy.max_parse_size_bytes,
        r matches Err(e) ==> e@ == PREVIEW_TOO_LARGE@,
{
    if size_bytes > policy.max_parse_size_bytes {
        Err(PREVIEW_TOO_LARGE.to_owned())
    } else {
        Ok(())
    }
}

/// The preview of the file at `path` whose bytes were read: its text when
/// the extension is a text extension and the bytes are UTF-8, otherwise the
/// policy's parse error code.
pub fn preview_from_bytes(policy: &IndexerPolicy, path: &str, bytes: Vec<u8>) -> (r: Result<
    PreviewContent,
    String,
>)
    ensures
        r is Ok <==> is_text_extension(*policy, extension_spec(path@)) && valid_utf8(bytes@),
        r matches Ok(p) ==> p.content@ == decode_utf8(bytes@) && p.source@ == PREVIEW_SOURCE_FILE@,
        r matches Err(e) ==> e@ == policy.parse_error_code@,
{
    let extension = extension_of(path);
    match parse_content_for_extension(policy, extension.as_str(), bytes.as_slice()) {
        ParseStatus::ParseError { code } => Err(code),
        ParseStatus::Parsed => match decode_utf8_bytes(bytes.as_slice()) {
            Some(content) => Ok(PreviewContent { content, source: PREVIEW_SOURCE_FILE.to_owned() }),
            None => Err(policy.parse_error_code.clone()),
        },
    }
}

// ---------------------------------------------------------------------------
// File actions
// ---------------------------------------------------------------------------
/// The program and arguments that open the file at `path`; the path is one
/// argument, never interpreted by a shell.
pub fn build_open_file_command(path: &str) -> (r: (String, Vec<String>))
    ensures
        r.0@ == OPEN_PROGRAM@,
        r.1@.len() == 1,
        r.1@[0]@ == path@,
{
    let mut args: Vec<String> = Vec::new();
    args.push(path.to_owned());
    (OPEN_PROGRAM.to_owned(), args)
}

/// The program and arguments that reveal the file at `path` in the file
/// manager, selected.
pub fn build_reveal_file_command(path: &str) -> (r: (String, Vec<String>))
    ensures
        r.0@ == OPEN_PROGRAM@,
        r.1@.len() == 2,
        r.1@[0]@ == REVEAL_FLAG@,
        r.1@[1]@ == path@,
{
    let mut args: Vec<String> = Vec::new();
    args.push(REVEAL_FLAG.to_owned());
    args.push(path.to_owned());
    (OPEN_PROGRAM.to_owned(), args)
}

// ---------------------------------------------------------------------------
// Search modes
// ---------------------------------------------------------------------------
/// The search mode keeps the hit: file-name hits for the file-name mode,
/// content hits for the content mode, every hit for the mixed mode.
pub open spec fn mode_keeps(mode: SearchMode, hit: SearchHit) -> bool {
    match mode {
        SearchMode::Filename => hit.hit_source@ == HIT_SOURCE_FILENAME@,
        SearchMode::Content => hit.hit_source@ == HIT_SOURCE_CONTENT@,
        SearchMode::Mixed => true,
    }
}

/// The hits that the mode keeps, in order.
pub open spec fn kept_hits(hits: Seq<SearchHit>, mode: SearchMode) -> Seq<SearchHit>
    decreases hits.len(),
{
    if hits.len() == 0 {
        seq![]
    } else if mode_keeps(mode, hits.last()) {
        kept_hits(hits.drop_last(), mode).push(hits.last())
    } else {
        kept_hits(hits.drop_last(), mode)
    }
}

/// The hits of the requested search mode, in order.
pub fn filter_hits_by_mode(hits: Vec<SearchHit>, mode: &SearchMode) -> (r: Vec<SearchHit>)
    ensures
        r@ == kept_hits(hits@, *mode),
{
    let mut kept: Vec<SearchHit> = Vec::new();
    let mut i: usize = 0;
    while i < hits.len()
        invariant
            i <= hits@.len(),
            kept@ == kept_hits(hits@.take(i as int), *mode),
        decreases hits.len() - i,
    {
        assert(hits@.take(i + 1).drop_last() =~= hits@.take(i as int));
        let keep = match mode {
            SearchMode::Filename => str_equal(hits[i].hit_source.as_str(), HIT_SOURCE_FILENAME),
            SearchMode::Content => str_equal(hits[i].hit_source.as_str(), HIT_SOURCE_CONTENT),
            SearchMode::Mixed => true,
        };
        if keep {
            kept.push(hits[i].clone_hit());
        }
        i = i + 1;
    }
    assert(hits@.take(hits@.len() as int) =~= hits@);
    kept
}

// ---------------------------------------------------------------------------
// The search-syntax configuration
// ---------------------------------------------------------------------------
/// The kind shown for an extension that no group of the configuration names.
pub const DEFAULT_KIND: &'static str = "文件";

/// The position in `s` of the `]` that closes the `[` opened just before
/// `s`, while `depth` brackets are open.
pub open spec fn closing_bracket(s: Seq<char>, depth: nat) -> Option<int>
    decreases s.len(),
{
    if s.len() == 0 {
        None
    } else if s[0] == '[' {
        shift(closing_bracket(s.drop_first(), depth + 1), 1)
    } else if s[0] == ']' && depth <= 1 {
        Some(0)
    } else if s[0] == ']' {
        shift(closing_bracket(s.drop_first(), (depth - 1) as nat), 1)
    } else {
        shift(closing_bracket(s.drop_first(), depth), 1)
    }
}

/// The body of the array after `"key"`: the text between the first `[`
/// after the key and the `]` that closes it.
pub open spec fn json_array(payload: Seq<char>, key: Seq<char>) -> Option<Seq<char>> {
    match after_marker(payload, key) {
        None => None,
        Some(after) => match find_seq(after, seq!['[']) {
            None => None,
            Some(a) => match closing_bracket(after.skip(a + 1), 1) {
                Some(e) => Some(after.skip(a + 1).take(e)),
                None => None,
            },
        },
    }
}

/// The scan for top-level objects over the first `n` characters: the brace
/// depth, where the open object started, and the objects closed so far. A
/// `}` with no open object is ignored.
pub open spec fn object_scan(payload: Seq<char>, n: nat) -> (nat, Option<int>, Seq<Seq<char>>)
    decreases n,
{
    if n == 0 {
        (0, None, seq![])
    } else {
        let prev = object_scan(payload, (n - 1) as nat);
        let d = prev.0;
        let i = n - 1;
        if payload[i] == '{' {
            (d + 1, if d == 0 {
                Some(i)
            } else {
                prev.1
            }, prev.2)
        } else if payload[i] == '}' {
            if d <= 1 {
                (0, None, match prev.1 {
                    Some(b) => prev.2.push(payload.subrange(b, i + 1)),
                    None => prev.2,
                })
            } else {
                ((d - 1) as nat, prev.1, prev.2)
            }
        } else {
            prev
        }
    }
}

/// The top-level `{...}` objects of the payload, in order.
pub open spec fn json_objects(payload: Seq<char>) -> Seq<Seq<char>> {
    object_scan(payload, payload.len()).2
}

/// The double-quoted strings of the payload, read pairwise from the left.
pub open spec fn quoted_values(s: Seq<char>) -> Seq<Seq<char>>
    decreases s.len(),
{
    match find_seq(s, seq!['"']) {
        None => seq![],
        Some(a) => {
            proof {
                lemma_find_seq(s, seq!['"']);
            }
            let t = s.skip(a + 1);
            match find_seq(t, seq!['"']) {
                None => seq![],
                Some(e) => {
                    proof {
                        lemma_find_seq(t, seq!['"']);
                    }
                    seq![t.take(e)] + quoted_values(t.skip(e + 1))
                },
            }
        },
    }
}

/// ASCII case-insensitive equality.
pub open spec fn eq_ignore_ascii_case(a: Seq<char>, b: Seq<char>) -> bool {
    lower_seq(a) == lower_seq(b)
}

/// One of the extensions, without its leading dots, is `key` up to ASCII case.
pub open spec fn names_extension(values: Seq<Seq<char>>, key: Seq<char>) -> bool {
    exists|i: int|
        0 <= i < values.len() && eq_ignore_ascii_case(trim_start_char(#[trigger] values[i], '.'), key)
}

/// The kind of a group, when the group has a kind and its extensions name `key`.
pub open spec fn group_kind(group: Seq<char>, key: Seq<char>) -> Option<Seq<char>> {
    match string_field(group, "kind"@) {
        None => None,
        Some(kind) => match json_array(group, "extensions"@) {
            None => None,
            Some(exts) => if names_extension(quoted_values(exts), key) {
                Some(kind)
            } else {
                None
            },
        },
    }
}

/// The kind of the first group that names `key`.
pub open spec fn first_kind(groups: Seq<Seq<char>>, key: Seq<char>) -> Option<Seq<char>>
    decreases groups.len(),
{
    if groups.len() == 0 {
        None
    } else {
        match group_kind(groups[0], key) {
            Some(k) => Some(k),
            None => first_kind(groups.drop_first(), key),
        }
    }
}

/// The kind that the configuration gives an extension: that of the first
/// extension group that names it, else the default kind.
pub open spec fn extension_kind(config: Seq<char>, extension: Seq<char>) -> Seq<char> {
    match json_array(config, "extensionKindGroups"@) {
        None => DEFAULT_KIND@,
        Some(groups) => match first_kind(json_objects(groups), store_extension(extension)) {
            Some(k) => k,
            None => DEFAULT_KIND@,
        },
    }
}

fn closing_bracket_index(s: &Vec<char>) -> (r: Option<usize>)
    ensures
        opt_usize_int(r) == closing_bracket(s@, 1),
        r matches Some(e) ==> e < s@.len(),
{
    let mut i: usize = 0;
    let mut extra: usize = 0;
    assert(s@.skip(0) =~= s@);
    while i < s.len()
        invariant
            i <= s@.len(),
            extra <= i,
            closing_bracket(s@, 1) == shift(closing_bracket(s@.skip(i as int), (extra + 1) as nat), i as int),
        decreases s.len() - i,
    {
        assert(s@.skip(i as int).drop_first() =~= s@.skip(i + 1));
        assert(s@.skip(i as int)[0] == s@[i as int]);
        let c = s[i];
        if c == '[' {
            extra = extra + 1;
        } else if c == ']' {
            if extra == 0 {
                return Some(i);
            }
            extra = extra - 1;
        }
        i = i + 1;
    }
    assert(s@.skip(i as int) =~= Seq::<char>::empty());
    None
}

fn read_json_array(payload: &Vec<char>, key: &str) -> (r: Option<Vec<char>>)
    ensures
        crate::json_fields::opt_seq(r) == json_array(payload@, key@),
{
    let after = match read_after_marker(payload, key) {
        None => { return None; },
        Some(a) => a,
    };
    let a = match find_char(&after, '[') {
        None => { return None; },
        Some(a) => a,
    };
    let n = after.len();
    let rest = sub_chars(&after, a + 1, n);
    assert(rest@ =~= after@.skip(a + 1));
    match closing_bracket_index(&rest) {
        None => None,
        Some(e) => {
            let body = sub_chars(&rest, 0, e);
            assert(body@ =~= rest@.take(e as int));
            Some(body)
        },
    }
}

/// The body of the array after `"key"` in the payload.
pub fn extract_json_array(payload: &str, key: &str) -> (r: Option<String>)
    ensures
        opt_string(r) == json_array(payload@, key@),
{
    let chars = chars_of(payload);
    match read_json_array(&chars, key) {
        None => None,
        Some(body) => Some(string_of(&body)),
    }
}

fn split_objects(chars: &Vec<char>) -> (r: Vec<String>)
    ensures
        strings_view(r@) == json_objects(chars@),
{
    let mut objects: Vec<String> = Vec::new();
    let mut depth: usize = 0;
    let mut start: Option<usize> = None;
    let mut i: usize = 0;
    while i < chars.len()
        invariant
            i <= chars@.len(),
            depth <= i,
            start matches Some(b) ==> b < i,
            object_scan(chars@, i as nat) == (depth as nat, opt_usize_int(start), strings_view(objects@)),
        decreases chars.len() - i,
    {
        let c = chars[i];
        if c == '{' {
            if depth == 0 {
                start = Some(i);
            }
            depth = depth + 1;
        } else if c == '}' {
            if depth <= 1 {
                depth = 0;
                match start {
                    Some(b) => {
                        let ghost before = strings_view(objects@);
                        objects.push(string_from(chars, b, i + 1));
                        assert(strings_view(objects@) =~= before.push(chars@.subrange(b as int, i + 1)));
                    },
                    None => {},
                }
                start = None;
            } else {
                depth = depth - 1;
            }
        }
        i = i + 1;
    }
    objects
}

/// The top-level `{...}` objects of the payload, in order.
pub fn split_json_objects(payload: &str) -> (r: Vec<String>)
    ensures
        strings_view(r@) == json_objects(payload@),
{
    let chars = chars_of(payload);
    split_objects(&chars)
}

/// The string value of `key` in the payload.
pub fn extract_json_string_value(payload: &str, key: &str) -> (r: Option<String>)
    ensures
        opt_string(r) == string_field(payload@, key@),
{
    let chars = chars_of(payload);
    read_string_field(&chars, key)
}

fn quoted_strings(payload: &Vec<char>) -> (r: Vec<String>)
    ensures
        strings_view(r@) == quoted_values(payload@),
{
    let mut values: Vec<String> = Vec::new();
    let n = payload.len();
    let mut rest = sub_chars(payload, 0, n);
    assert(rest@ =~= payload@);
    assert(strings_view(values@) + quoted_values(rest@) =~= quoted_values(payload@));
    loop
        invariant
            quoted_values(payload@) == strings_view(values@) + quoted_values(rest@),
        decreases rest@.len(),
    {
        proof {
            lemma_find_seq(rest@, seq!['"']);
        }
        let a = match find_char(&rest, '"') {
            None => {
                assert(strings_view(values@) + Seq::<Seq<char>>::empty() =~= strings_view(values@));
                return values;
            },
            Some(a) => a,
        };
        let m = rest.len();
        let t = sub_chars(&rest, a + 1, m);
        assert(t@ =~= rest@.skip(a + 1));
        proof {
            lemma_find_seq(t@, seq!['"']);
        }
        let e = match find_char(&t, '"') {
            None => {
                assert(strings_view(values@) + Seq::<Seq<char>>::empty() =~= strings_view(values@));
                return values;
            },
            Some(e) => e,
        };
        let ghost before = strings_view(values@);
        values.push(string_from(&t, 0, e));
        let k = t.len();
        let next = sub_chars(&t, e + 1, k);
        assert(next@ =~= t@.skip(e + 1));
        assert(t@.subrange(0, e as int) =~= t@.take(e as int));
        assert(strings_view(values@) =~= before + seq![t@.take(e as int)]);
        assert(before + (seq![t@.take(e as int)] + quoted_values(next@)) =~= strings_view(values@)
            + quoted_values(next@));
        rest = next;
    }
}

/// The double-quoted strings of the payload, in order.
pub fn extract_json_string_values(payload: &str) -> (r: Vec<String>)
    ensures
        strings_view(r@) == quoted_values(payload@),
{
    let chars = chars_of(payload);
    quoted_strings(&chars)
}

fn names_extension_in(values: &Vec<String>, key: &Vec<char>) -> (r: bool)
    ensures
        r == names_extension(strings_view(values@), key@),
{
    let lowered_key = ascii_lowercase(key);
    let mut i: usize = 0;
    while i < values.len()
        invariant
            i <= values@.len(),
            lowered_key@ == lower_seq(key@),
            forall|k: int|
                0 <= k < i ==> !eq_ignore_ascii_case(
                    trim_start_char(#[trigger] strings_view(values@)[k], '.'),
                    key@,
                ),
        decreases values.len() - i,
    {
        let candidate = trim_start_matches_char(&chars_of(values[i].as_str()), '.');
        let lowered = ascii_lowercase(&candidate);
        if chars_equal(&lowered, &lowered_key) {
            assert(strings_view(values@)[i as int] == values@[i as int]@);
            return true;
        }
        i = i + 1;
    }
    false
}

/// The kind of a group for the extension key, when it names it.
fn read_group_kind(group: &String, key: &Vec<char>) -> (r: Option<String>)
    ensures
        opt_string(r) == group_kind(group@, key@),
{
    let chars = chars_of(group.as_str());
    let kind = match read_string_field(&chars, "kind") {
        None => { return None; },
        Some(k) => k,
    };
    let extensions = match read_json_array(&chars, "extensions") {
        None => { return None; },
        Some(e) => e,
    };
    let values = quoted_strings(&extensions);
    if names_extension_in(&values, key) {
        Some(kind)
    } else {
        None
    }
}

/// The kind that the search-syntax configuration gives an extension: that
/// of the first extension group naming it, else the default kind.
pub fn kind_for_extension(config: &str, extension: &str) -> (r: String)
    ensures
        r@ == extension_kind(config@, extension@),
{
    let key_string = crate::content_store::normalize_extension(extension);
    let key = chars_of(key_string.as_str());
    let chars = chars_of(config);
    let groups = match read_json_array(&chars, "extensionKindGroups") {
        None => { return DEFAULT_KIND.to_owned(); },
        Some(g) => g,
    };
    let objects = split_objects(&groups);
    let ghost all = strings_view(objects@);
    let mut i: usize = 0;
    assert(all.skip(0) =~= all);
    while i < objects.len()
        invariant
            i <= objects@.len(),
            all == strings_view(objects@),
            key@ == store_extension(extension@),
            first_kind(all, key@) == first_kind(all.skip(i as int), key@),
            extension_kind(config@, extension@) == match first_kind(all, key@) {
                Some(k) => k,
                None => DEFAULT_KIND@,
            },
        decreases objects.len() - i,
    {
        assert(all.skip(i as int).drop_first() =~= all.skip(i + 1));
        assert(all.skip(i as int)[0] == objects@[i as int]@);
        match read_group_kind(&objects[i], &key) {
            Some(kind) => { return kind; },
            None => {},
        }
        i = i + 1;
    }
    assert(all.skip(i as int) =~= Seq::<Seq<char>>::empty());
    DEFAULT_KIND.to_owned()
}

/// A search hit as the search window shows it.
#[derive(Debug, Clone, PartialEq, Eq)]
pub struct SearchFileNameHit {
    pub id: String,
    pub name: String,
    pub path: String,
    pub extension: String,
    pub modified_at: u64,
    pub size_bytes: u64,
    pub kind: String,
    pub hit_source: String,
    pub snippet: Option<String>,
}

/// `c` shows `h`: its path as id and path, its extension without leading
/// dots, and the kind that the configuration gives the extension.
pub open spec fn is_command_hit(c: SearchFileNameHit, h: SearchHit, config: Seq<char>) -> bool {
    &&& c.id@ == h.physical_path@
    &&& c.name@ == h.file_name@
    &&& c.path@ == h.physical_path@
    &&& c.extension@ == trim_start_char(h.extension@, '.')
    &&& c.modified_at == h.modified_at
    &&& c.size_bytes == h.size_bytes
    &&& c.kind@ == extension_kind(config, h.extension@)
    &&& c.hit_source@ == h.hit_source@
    &&& opt_string(c.snippet) == opt_string(h.snippet)
}

/// The hits as the search window shows them, in order.
pub fn search_hits_to_command_hits(hits: Vec<SearchHit>, config: &str) -> (r: Vec<SearchFileNameHit>)
    ensures
        r@.len() == hits@.len(),
        forall|i: int| 0 <= i < hits@.len() ==> is_command_hit(#[trigger] r@[i], hits@[i], config@),
{
    let mut out: Vec<SearchFileNameHit> = Vec::new();
    let mut i: usize = 0;
    while i < hits.len()
        invariant
            i <= hits@.len(),
            out@.len() == i,
            forall|k: int| 0 <= k < i ==> is_command_hit(#[trigger] out@[k], hits@[k], config@),
        decreases hits.len() - i,
    {
        let hit = &hits[i];
        let extension = trim_start_matches_char(&chars_of(hit.extension.as_str()), '.');
        let snippet = match &hit.snippet {
            Some(s) => Some(s.clone()),
            None => None,
        };
        out.push(SearchFileNameHit {
            id: hit.physical_path.clone(),
            name: hit.file_name.clone(),
            path: hit.physical_path.clone(),
            extension: string_of(&extension),
            modified_at: hit.modified_at,
            size_bytes: hit.size_bytes,
            kind: kind_for_extension(config, hit.extension.as_str()),
            hit_source: hit.hit_source.clone(),
            snippet,
        });
        i = i + 1;
    }
    out
}

/// `r` shows `hits`, one for one and in order.
pub open spec fn are_command_hits(r: Seq<SearchFileNameHit>, hits: Seq<SearchHit>, config: Seq<char>) -> bool {
    &&& r.len() == hits.len()
    &&& forall|i: int| 0 <= i < hits.len() ==> is_command_hit(#[trigger] r[i], hits[i], config)
}

/// The search command falls back to a fresh scan of the file system when
/// the runtime index has no hit.
pub fn needs_fallback_scan(runtime_hits: &Vec<SearchHit>) -> (r: bool)
    ensures
        r == (runtime_hits@.len() == 0),
{
    runtime_hits.len() == 0
}

/// The answer of the search command: the runtime index's hits, or, when it
/// has none, the file-name hits among the freshly `scanned` records; then
/// those of the requested mode, as the search window shows them.
pub fn finish_search_command(
    runtime_hits: Vec<SearchHit>,
    scanned: Option<Vec<FileIndexRecord>>,
    query: &SearchQuery,
    limit: usize,
    mode: &SearchMode,
    config: &str,
) -> (r: Vec<SearchFileNameHit>)
    ensures
        exists|hits: Seq<SearchHit>|
            {
                &&& if runtime_hits@.len() > 0 {
                    hits == runtime_hits@
                } else {
                    match scanned {
                        Some(records) => are_filename_hits(hits, records@, *query, limit),
                        None => hits.len() == 0,
                    }
                }
                &&& are_command_hits(r@, kept_hits(hits, *mode), config@)
            },
{
    let hits = if !needs_fallback_scan(&runtime_hits) {
        runtime_hits
    } else {
        match scanned {
            Some(records) => search_file_names(records.as_slice(), query, limit),
            None => Vec::new(),
        }
    };
    let ghost used = hits@;
    let kept = filter_hits_by_mode(hits, mode);
    let r = search_hits_to_command_hits(kept, config);
    assert(are_command_hits(r@, kept_hits(used, *mode), config@));
    r
}

} // verus!

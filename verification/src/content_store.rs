//! The persistent full-text store's documents, queries and result snippets.
//!
//! The store itself lives in an SQLite FTS5 table; what is decided here is
//! what a document and a query become before they reach the table, and the
//! snippet that a hit shows.
use vstd::prelude::*;
use vstd::string::{StrSliceExecFns, StringExecFns};
use vstd::utf8::{
    decode_utf8, encode_utf8, is_char_boundary, valid_utf8, encode_utf8_valid_utf8,
    is_char_boundary_start_end_of_seq, is_char_boundary_iff_not_is_continuation_byte,
    valid_utf8_split,
};
use crate::text::{
    chars_of, find_bytes, find_seq, is_unicode_whitespace, is_whitespace_char, lower_chars_of,
    lower_seq, opt_int, string_of, sub_chars, trim_chars, trim_seq, trim_start_char,
    trim_start_chars, trim_start_matches_char, trim_start_seq, ascii_lowercase, decode_utf8_bytes, lemma_find_seq,
};

verus! {

#[derive(Debug, Clone, PartialEq, Eq)]
pub struct ContentDocument {
    pub physical_path: String,
    pub file_name: String,
    pub extension: String,
    pub modified_at: u64,
    pub content: String,
}

#[derive(Debug, Clone, PartialEq, Eq)]
pub struct ContentSearchQuery {
    pub needle: String,
    pub extension: Option<String>,
    pub limit: usize,
    pub snippet_radius: usize,
}

#[derive(Debug, Clone, PartialEq, Eq)]
pub struct ContentStoreError {
    message: String,
}

impl ContentStoreError {
    pub closed spec fn text(&self) -> Seq<char> {
        self.message@
    }

    pub fn new(message: String) -> (r: Self)
        ensures
            r.text() == message@,
    {
        Self { message }
    }

    /// The error's message.
    pub fn message(&self) -> (r: &str)
        ensures
            r@ == self.text(),
    {
        self.message.as_str()
    }
}

// ---------------------------------------------------------------------------
// Extensions and queries
// ---------------------------------------------------------------------------
/// The extension key of the content store: trimmed, without leading dots,
/// ASCII-lowercased.
pub open spec fn store_extension(s: Seq<char>) -> Seq<char> {
    lower_seq(trim_start_char(trim_seq(s), '.'))
}

pub fn normalize_extension(value: &str) -> (r: String)
    ensures
        r@ == store_extension(value@),
{
    let chars = chars_of(value);
    let trimmed = trim_chars(&chars);
    let undotted = trim_start_matches_char(&trimmed, '.');
    let lowered = ascii_lowercase(&undotted);
    string_of(&lowered)
}

/// What a content query sends to the store: the needle, the extension key,
/// and the limits narrowed to what SQLite takes (at most `i32::MAX`).
#[derive(Debug, Clone, PartialEq, Eq)]
pub struct ContentSearchPlan {
    pub needle: String,
    pub normalized_extension: Option<String>,
    pub limit: i64,
    pub snippet_radius: i64,
}

pub open spec fn clamp_i32(v: usize) -> i64 {
    if v <= i32::MAX {
        v as i64
    } else {
        i32::MAX as i64
    }
}

/// The plan of a content query; `None` when the needle is blank or the limit
/// is zero, since such a query finds nothing.
pub fn content_search_plan(query: &ContentSearchQuery) -> (r: Option<ContentSearchPlan>)
    ensures
        r is None <==> (trim_seq(query.needle@).len() == 0 || query.limit == 0),
        r matches Some(p) ==> {
            &&& p.needle@ == query.needle@
            &&& (match query.extension {
                Some(e) => p.normalized_extension matches Some(n) && n@ == store_extension(e@),
                None => p.normalized_extension is None,
            })
            &&& p.limit == clamp_i32(query.limit)
            &&& p.snippet_radius == clamp_i32(query.snippet_radius)
        },
{
    let needle_chars = chars_of(query.needle.as_str());
    let trimmed = trim_chars(&needle_chars);
    if trimmed.len() == 0 || query.limit == 0 {
        return None;
    }
    let normalized_extension = match &query.extension {
        Some(value) => Some(normalize_extension(value.as_str())),
        None => None,
    };
    let limit = if query.limit <= 2147483647 {
        query.limit as i64
    } else {
        2147483647i64
    };
    let snippet_radius = if query.snippet_radius <= 2147483647 {
        query.snippet_radius as i64
    } else {
        2147483647i64
    };
    Some(
        ContentSearchPlan {
            needle: query.needle.clone(),
            normalized_extension,
            limit,
            snippet_radius,
        },
    )
}

// ---------------------------------------------------------------------------
// Snippets: specifications
// ---------------------------------------------------------------------------
/// `u8::to_ascii_lowercase`.
pub open spec fn lower_byte(b: u8) -> u8 {
    if 65 <= b && b <= 90 {
        (b + 32) as u8
    } else {
        b
    }
}

/// `to_ascii_lowercase` on the bytes of a text.
pub open spec fn lower_bytes(s: Seq<u8>) -> Seq<u8> {
    Seq::new(s.len(), |i: int| lower_byte(s[i]))
}

/// The number of non-whitespace characters at the start of `s`.
pub open spec fn token_len(s: Seq<char>) -> nat
    decreases s.len(),
{
    if s.len() > 0 && !is_unicode_whitespace(s[0]) {
        1 + token_len(s.drop_first())
    } else {
        0
    }
}

/// `str::split_whitespace`: the maximal runs of non-whitespace characters.
pub open spec fn ws_terms(s: Seq<char>) -> Seq<Seq<char>>
    decreases s.len(),
{
    let t = trim_start_seq(s);
    if t.len() == 0 {
        seq![]
    } else {
        proof {
            lemma_trim_start_shape(s);
            lemma_token_len(t);
        }
        seq![t.take(token_len(t) as int)] + ws_terms(t.skip(token_len(t) as int))
    }
}

/// The position in `hay` of the first of `terms` that occurs in it.
pub open spec fn first_term_position(hay: Seq<u8>, terms: Seq<Seq<char>>) -> Option<int>
    decreases terms.len(),
{
    if terms.len() == 0 {
        None
    } else {
        match find_seq(hay, encode_utf8(terms[0])) {
            Some(i) => Some(i),
            None => first_term_position(hay, terms.drop_first()),
        }
    }
}

/// The byte offset that a snippet is centred on: the first case-insensitive
/// occurrence of the needle in the content, else that of the first of its
/// whitespace-separated terms that occurs, else the start.
pub open spec fn match_start(content: Seq<char>, needle: Seq<char>) -> int {
    let hay = lower_bytes(encode_utf8(content));
    match find_seq(hay, lower_bytes(encode_utf8(needle))) {
        Some(i) => i,
        None => match first_term_position(hay, ws_terms(lower_seq(needle))) {
            Some(i) => i,
            None => 0,
        },
    }
}

/// The nearest character boundary at or below `j`.
pub open spec fn scan_down(bytes: Seq<u8>, j: int) -> int
    decreases j,
{
    if j <= 0 {
        0
    } else if is_char_boundary(bytes, j) {
        j
    } else {
        scan_down(bytes, j - 1)
    }
}

/// The nearest character boundary at or above `j` (the end at the latest).
pub open spec fn scan_up(bytes: Seq<u8>, j: int) -> int
    decreases bytes.len() - j,
{
    if j >= bytes.len() {
        bytes.len() as int
    } else if is_char_boundary(bytes, j) {
        j
    } else {
        scan_up(bytes, j + 1)
    }
}

pub open spec fn min_int(a: int, b: int) -> int {
    if a < b {
        a
    } else {
        b
    }
}

/// The byte range of the snippet: `radius` bytes on each side of the match,
/// widened to character boundaries and cut at the ends of the content.
pub open spec fn snippet_bounds(content: Seq<char>, needle: Seq<char>, radius: int) -> (int, int) {
    let bytes = encode_utf8(content);
    let ms = match_start(content, needle);
    let me = min_int(ms + encode_utf8(needle).len(), usize::MAX as int);
    let start = scan_down(bytes, min_int(if ms >= radius { ms - radius } else { 0 }, bytes.len() as int));
    let end = scan_up(bytes, min_int(me + radius, bytes.len() as int));
    (start, end)
}

pub open spec fn ellipsis() -> Seq<char> {
    seq!['.', '.', '.']
}

/// The snippet: the text in the snippet range, with `...` on each side where
/// content was cut off.
pub open spec fn snippet_of(content: Seq<char>, needle: Seq<char>, radius: int) -> Seq<char> {
    let bytes = encode_utf8(content);
    let (start, end) = snippet_bounds(content, needle, radius);
    (if start > 0 {
        ellipsis()
    } else {
        seq![]
    }) + decode_utf8(bytes.subrange(start, end)) + (if end < bytes.len() {
        ellipsis()
    } else {
        seq![]
    })
}

// ---------------------------------------------------------------------------
// Snippets: lemmas
// ---------------------------------------------------------------------------
pub proof fn lemma_trim_start_shape(s: Seq<char>)
    ensures
        trim_start_seq(s).len() <= s.len(),
        trim_start_seq(s) == s.skip(s.len() - trim_start_seq(s).len()),
        trim_start_seq(s).len() > 0 ==> !is_unicode_whitespace(trim_start_seq(s)[0]),
    decreases s.len(),
{
    if s.len() > 0 && is_unicode_whitespace(s[0]) {
        lemma_trim_start_shape(s.drop_first());
        assert(s.drop_first().skip(s.drop_first().len() - trim_start_seq(s).len()) =~= s.skip(
            s.len() - trim_start_seq(s).len(),
        ));
    } else {
        assert(s.skip(0) =~= s);
    }
}

pub proof fn lemma_token_len(t: Seq<char>)
    ensures
        token_len(t) <= t.len(),
        t.len() > 0 && !is_unicode_whitespace(t[0]) ==> token_len(t) >= 1,
        forall|i: int| 0 <= i < token_len(t) ==> !is_unicode_whitespace(#[trigger] t[i]),
        token_len(t) < t.len() ==> is_unicode_whitespace(t[token_len(t) as int]),
    decreases t.len(),
{
    if t.len() > 0 && !is_unicode_whitespace(t[0]) {
        lemma_token_len(t.drop_first());
        assert forall|i: int| 0 <= i < token_len(t) implies !is_unicode_whitespace(#[trigger] t[i]) by {
            if i > 0 {
                assert(t[i] == t.drop_first()[i - 1]);
            }
        }
    }
}

proof fn lemma_token_len_is(t: Seq<char>, k: int)
    requires
        0 <= k <= t.len(),
        forall|i: int| 0 <= i < k ==> !is_unicode_whitespace(#[trigger] t[i]),
        k == t.len() || is_unicode_whitespace(t[k]),
    ensures
        token_len(t) == k,
    decreases k,
{
    if k > 0 {
        assert forall|i: int| 0 <= i < k - 1 implies !is_unicode_whitespace(
            #[trigger] t.drop_first()[i],
        ) by {
            assert(t.drop_first()[i] == t[i + 1]);
        }
        lemma_token_len_is(t.drop_first(), k - 1);
    }
}

proof fn lemma_scan_down(bytes: Seq<u8>, j: int)
    requires
        valid_utf8(bytes),
        0 <= j <= bytes.len(),
    ensures
        0 <= scan_down(bytes, j) <= j,
        is_char_boundary(bytes, scan_down(bytes, j)),
    decreases j,
{
    is_char_boundary_start_end_of_seq(bytes);
    if j > 0 && !is_char_boundary(bytes, j) {
        lemma_scan_down(bytes, j - 1);
    }
}

proof fn lemma_scan_up(bytes: Seq<u8>, j: int)
    requires
        valid_utf8(bytes),
        0 <= j <= bytes.len(),
    ensures
        j <= scan_up(bytes, j) <= bytes.len(),
        is_char_boundary(bytes, scan_up(bytes, j)),
    decreases bytes.len() - j,
{
    is_char_boundary_start_end_of_seq(bytes);
    if j < bytes.len() && !is_char_boundary(bytes, j) {
        lemma_scan_up(bytes, j + 1);
    }
}

proof fn lemma_first_term_position_bound(hay: Seq<u8>, terms: Seq<Seq<char>>)
    ensures
        first_term_position(hay, terms) matches Some(i) ==> 0 <= i <= hay.len(),
    decreases terms.len(),
{
    if terms.len() > 0 {
        lemma_find_seq(hay, encode_utf8(terms[0]));
        lemma_first_term_position_bound(hay, terms.drop_first());
    }
}

/// The snippet's byte range lies on character boundaries of the content,
/// and it covers the first case-insensitive occurrence of the needle.
pub proof fn law_snippet_bounds(content: Seq<char>, needle: Seq<char>, radius: int)
    requires
        0 <= radius,
        encode_utf8(content).len() <= usize::MAX,
    ensures
        0 <= snippet_bounds(content, needle, radius).0 <= snippet_bounds(content, needle, radius).1
            <= encode_utf8(content).len(),
        is_char_boundary(encode_utf8(content), snippet_bounds(content, needle, radius).0),
        is_char_boundary(encode_utf8(content), snippet_bounds(content, needle, radius).1),
        find_seq(lower_bytes(encode_utf8(content)), lower_bytes(encode_utf8(needle))) matches Some(i)
            ==> snippet_bounds(content, needle, radius).0 <= i && i + encode_utf8(needle).len()
            <= snippet_bounds(content, needle, radius).1,
{
    let bytes = encode_utf8(content);
    let hay = lower_bytes(bytes);
    encode_utf8_valid_utf8(content);
    lemma_find_seq(hay, lower_bytes(encode_utf8(needle)));
    lemma_first_term_position_bound(hay, ws_terms(lower_seq(needle)));
    let ms = match_start(content, needle);
    assert(0 <= ms <= bytes.len());
    let j_start = min_int(if ms >= radius { ms - radius } else { 0 }, bytes.len() as int);
    let me = min_int(ms + encode_utf8(needle).len(), usize::MAX as int);
    let j_end = min_int(me + radius, bytes.len() as int);
    lemma_scan_down(bytes, j_start);
    lemma_scan_up(bytes, j_end);
}

/// The bytes between two character boundaries of valid UTF-8 are valid UTF-8.
proof fn lemma_valid_between_boundaries(bytes: Seq<u8>, start: int, end: int)
    requires
        valid_utf8(bytes),
        0 <= start <= end <= bytes.len(),
        is_char_boundary(bytes, start),
        is_char_boundary(bytes, end),
    ensures
        valid_utf8(bytes.subrange(start, end)),
{
    valid_utf8_split(bytes, start);
    let tail = bytes.subrange(start, bytes.len() as int);
    if end == bytes.len() {
        is_char_boundary_start_end_of_seq(tail);
        assert(tail.subrange(0, end - start) =~= tail);
    } else {
        is_char_boundary_iff_not_is_continuation_byte(bytes, end);
        is_char_boundary_iff_not_is_continuation_byte(tail, end - start);
        assert(tail[end - start] == bytes[end]);
    }
    valid_utf8_split(tail, end - start);
    assert(tail.subrange(0, end - start) =~= bytes.subrange(start, end));
}

// ---------------------------------------------------------------------------
// Snippets: executable
// ---------------------------------------------------------------------------
fn lower_byte_vec(v: &Vec<u8>) -> (r: Vec<u8>)
    ensures
        r@ == lower_bytes(v@),
{
    let mut r: Vec<u8> = Vec::new();
    let mut i: usize = 0;
    while i < v.len()
        invariant
            i <= v.len(),
            r@ == lower_bytes(v@.take(i as int)),
        decreases v.len() - i,
    {
        let b = v[i];
        let l = if 65 <= b && b <= 90 {
            b + 32
        } else {
            b
        };
        r.push(l);
        assert(lower_bytes(v@.take(i + 1)) =~= lower_bytes(v@.take(i as int)).push(l));
        i = i + 1;
    }
    assert(v@.take(v@.len() as int) =~= v@);
    r
}

fn sub_bytes(v: &Vec<u8>, lo: usize, hi: usize) -> (r: Vec<u8>)
    requires
        lo <= hi <= v.len(),
    ensures
        r@ == v@.subrange(lo as int, hi as int),
{
    let mut r: Vec<u8> = Vec::new();
    let mut i = lo;
    while i < hi
        invariant
            lo <= i <= hi <= v.len(),
            r@ == v@.subrange(lo as int, i as int),
        decreases hi - i,
    {
        r.push(v[i]);
        assert(v@.subrange(lo as int, i + 1) =~= v@.subrange(lo as int, i as int).push(v@[i as int]));
        i = i + 1;
    }
    r
}

pub open spec fn terms_view(v: Seq<Vec<char>>) -> Seq<Seq<char>> {
    v.map_values(|t: Vec<char>| t@)
}

/// `str::split_whitespace` on a character sequence.
fn split_whitespace_terms(v: &Vec<char>) -> (r: Vec<Vec<char>>)
    ensures
        terms_view(r@) == ws_terms(v@),
{
    let mut out: Vec<Vec<char>> = Vec::new();
    let mut rest = sub_chars(v, 0, v.len());
    assert(rest@ =~= v@);
    loop
        invariant
            ws_terms(v@) == terms_view(out@) + ws_terms(rest@),
        decreases rest@.len(),
    {
        let t = trim_start_chars(&rest);
        proof {
            lemma_trim_start_shape(rest@);
        }
        if t.len() == 0 {
            assert(terms_view(out@) + Seq::<Seq<char>>::empty() =~= terms_view(out@));
            return out;
        }
        let mut k: usize = 0;
        while k < t.len() && !is_whitespace_char(t[k])
            invariant
                k <= t.len(),
                forall|i: int| 0 <= i < k ==> !is_unicode_whitespace(#[trigger] t@[i]),
            decreases t.len() - k,
        {
            k = k + 1;
        }
        proof {
            lemma_token_len_is(t@, k as int);
            lemma_token_len(t@);
        }
        let n = t.len();
        let term = sub_chars(&t, 0, k);
        let next = sub_chars(&t, k, n);
        assert(term@ =~= t@.take(k as int));
        assert(next@ =~= t@.skip(k as int));
        let ghost before = terms_view(out@);
        out.push(term);
        assert(terms_view(out@) =~= before.push(term@));
        assert(ws_terms(rest@) == seq![term@] + ws_terms(next@));
        assert(before + (seq![term@] + ws_terms(next@)) =~= before.push(term@) + ws_terms(next@));
        rest = next;
    }
}

/// The bytes of the text.
fn bytes_of(s: &str) -> (r: Vec<u8>)
    ensures
        r@ == encode_utf8(s@),
{
    s.as_bytes_vec()
}

fn first_term_index(hay: &Vec<u8>, terms: &Vec<Vec<char>>) -> (r: Option<usize>)
    ensures
        opt_int(r) == first_term_position(hay@, terms_view(terms@)),
        r matches Some(i) ==> i <= hay@.len(),
{
    let mut i: usize = 0;
    assert(terms_view(terms@).skip(0) =~= terms_view(terms@));
    while i < terms.len()
        invariant
            i <= terms@.len(),
            first_term_position(hay@, terms_view(terms@)) == first_term_position(
                hay@,
                terms_view(terms@).skip(i as int),
            ),
        decreases terms.len() - i,
    {
        let term = string_of(&terms[i]);
        let term_bytes = bytes_of(term.as_str());
        let ghost tv = terms_view(terms@).skip(i as int);
        assert(tv[0] == terms@[i as int]@);
        assert(tv.drop_first() =~= terms_view(terms@).skip(i + 1));
        if let Some(p) = find_bytes(hay, &term_bytes) {
            return Some(p);
        }
        i = i + 1;
    }
    None
}

/// The byte offset that the snippet is centred on.
fn match_start_offset(content: &str, needle: &str) -> (r: usize)
    ensures
        r == match_start(content@, needle@),
        r <= encode_utf8(content@).len(),
{
    let content_bytes = bytes_of(content);
    let hay = lower_byte_vec(&content_bytes);
    let needle_bytes = bytes_of(needle);
    let lowered_needle = lower_byte_vec(&needle_bytes);
    match find_bytes(&hay, &lowered_needle) {
        Some(i) => i,
        None => {
            let terms = split_whitespace_terms(&lower_chars_of(needle));
            match first_term_index(&hay, &terms) {
                Some(i) => i,
                None => 0,
            }
        },
    }
}

/// The nearest character boundary of `value` at or below `index`.
pub fn nearest_char_boundary_before(value: &str, index: usize) -> (r: usize)
    ensures
        r == scan_down(encode_utf8(value@), min_int(index as int, encode_utf8(value@).len() as int)),
{
    let len = value.as_bytes().len();
    let mut index = if index < len {
        index
    } else {
        len
    };
    let ghost target = scan_down(encode_utf8(value@), index as int);
    while index > 0 && !value.is_char_boundary(index)
        invariant
            index <= len,
            len == encode_utf8(value@).len(),
            scan_down(encode_utf8(value@), index as int) == target,
        decreases index,
    {
        index = index - 1;
    }
    index
}

/// The nearest character boundary of `value` at or above `index`.
pub fn nearest_char_boundary_after(value: &str, index: usize) -> (r: usize)
    ensures
        r == scan_up(encode_utf8(value@), min_int(index as int, encode_utf8(value@).len() as int)),
{
    let len = value.as_bytes().len();
    let mut index = if index < len {
        index
    } else {
        len
    };
    let ghost target = scan_up(encode_utf8(value@), index as int);
    while index < len && !value.is_char_boundary(index)
        invariant
            index <= len,
            len == encode_utf8(value@).len(),
            scan_up(encode_utf8(value@), index as int) == target,
        decreases len - index,
    {
        index = index + 1;
    }
    index
}

fn ellipsis_string() -> (r: String)
    ensures
        r@ == ellipsis(),
{
    let dots = vec!['.', '.', '.'];
    assert(dots@ =~= ellipsis());
    string_of(&dots)
}

/// The snippet of `content` around the first case-insensitive occurrence of
/// `needle` (or of the first of its terms that occurs): `radius` bytes on
/// each side, widened to character boundaries, with `...` where the content
/// was cut off.
pub fn build_snippet(content: &str, needle: &str, radius: usize) -> (r: String)
    ensures
        r@ == snippet_of(content@, needle@, radius as int),
{
    let bytes = bytes_of(content);
    let len = bytes.len();
    let match_start = match_start_offset(content, needle);
    let needle_len = needle.as_bytes().len();
    let match_end = if needle_len > usize::MAX - match_start {
        usize::MAX
    } else {
        match_start + needle_len
    };
    let start_target = if match_start >= radius {
        match_start - radius
    } else {
        0
    };
    let end_target = if match_end >= len {
        len
    } else if radius >= len - match_end {
        len
    } else {
        match_end + radius
    };
    let start = nearest_char_boundary_before(content, start_target);
    let end = nearest_char_boundary_after(content, end_target);
    proof {
        encode_utf8_valid_utf8(content@);
        lemma_scan_down(bytes@, start_target as int);
        lemma_scan_up(bytes@, end_target as int);
        lemma_valid_between_boundaries(bytes@, start as int, end as int);
    }
    let body_bytes = sub_bytes(&bytes, start, end);
    let body = match decode_utf8_bytes(body_bytes.as_slice()) {
        Some(b) => b,
        None => String::new(),
    };
    let mut out = if start > 0 {
        ellipsis_string()
    } else {
        String::new()
    };
    out.append(body.as_str());
    if end < len {
        let dots = ellipsis_string();
        out.append(dots.as_str());
    }
    proof {
        let (s, e) = snippet_bounds(content@, needle@, radius as int);
        assert(s == start && e == end);
        assert(out@ =~= snippet_of(content@, needle@, radius as int));
    }
    out
}

} // verus!

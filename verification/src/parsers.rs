//! Content parsers: which extensions are read as text, and how.
use vstd::prelude::*;
use vstd::utf8::{decode_utf8, valid_utf8};
use crate::text::{
    chars_of, concat_chars, decode_utf8_bytes, lower_seq, ascii_lowercase, string_of, trim_chars,
    trim_seq, };

verus! {

/// A parser that turns file bytes into indexable text.
pub trait ContentParser {
    fn parse(&self, bytes: &[u8]) -> Result<String, ParseFailure>;
}

#[derive(Debug, Clone, PartialEq, Eq)]
pub struct ParseFailure {
    pub code: String,
}

/// Reads UTF-8 text; anything else fails with the configured error code.
#[derive(Debug, Clone, PartialEq, Eq)]
pub struct Utf8TextParser {
    parse_error_code: String,
}

impl Utf8TextParser {
    pub closed spec fn error_code(&self) -> Seq<char> {
        self.parse_error_code@
    }

    pub fn new(parse_error_code: String) -> (r: Self)
        ensures
            r.error_code() == parse_error_code@,
    {
        Self { parse_error_code }
    }
}

impl ContentParser for Utf8TextParser {
    fn parse(&self, bytes: &[u8]) -> (r: Result<String, ParseFailure>)
        ensures
            r is Ok <==> valid_utf8(bytes@),
            r matches Ok(text) ==> text@ == decode_utf8(bytes@),
            r matches Err(f) ==> f.code@ == self.error_code(),
    {
        match decode_utf8_bytes(bytes) {
            Some(text) => Ok(text),
            None => Err(ParseFailure { code: self.parse_error_code.clone() }),
        }
    }
}

/// The extension key of the parser registry: trimmed, ASCII-lowercased, and
/// with a leading dot added when it has none (an empty key stays empty).
pub open spec fn registry_extension(extension: Seq<char>) -> Seq<char> {
    let t = lower_seq(trim_seq(extension));
    if t.len() == 0 || t[0] == '.' {
        t
    } else {
        seq!['.'] + t
    }
}

#[derive(Debug, Clone, PartialEq, Eq)]
pub struct ParserRegistry {
    text_extensions: Vec<String>,
    text_parser: Utf8TextParser,
}

impl ParserRegistry {
    /// The normalized extensions read as text.
    pub closed spec fn extensions(&self) -> Set<Seq<char>> {
        Set::new(
            |e: Seq<char>|
                exists|i: int|
                    0 <= i < self.text_extensions@.len() && #[trigger] self.text_extensions@[i]@
                        == e,
        )
    }

    /// The normalized extensions in the order they were first configured.
    pub closed spec fn listed(&self) -> Seq<Seq<char>> {
        self.text_extensions@.map_values(|s: String| s@)
    }

    pub closed spec fn error_code(&self) -> Seq<char> {
        self.text_parser.error_code()
    }

    /// The registry of the configured text extensions, each normalized and
    /// listed once, in the order of their first occurrence.
    #[verifier::rlimit(80)]
    pub fn from_text_extensions(text_extensions: Vec<String>, parse_error_code: String) -> (r: Self)
        ensures
            r.extensions() == Set::new(
                |e: Seq<char>|
                    exists|i: int|
                        0 <= i < text_extensions@.len() && registry_extension(
                            #[trigger] text_extensions@[i]@,
                        ) == e,
            ),
            r.listed().no_duplicates(),
            r.error_code() == parse_error_code@,
    {
        let mut normalized: Vec<String> = Vec::new();
        let mut i: usize = 0;
        while i < text_extensions.len()
            invariant
                i <= text_extensions.len(),
                forall|k: int|
                    0 <= k < normalized@.len() ==> exists|j: int|
                        0 <= j < i && #[trigger] normalized@[k]@ == registry_extension(
                            text_extensions@[j]@,
                        ),
                forall|j: int|
                    0 <= j < i ==> exists|k: int|
                        0 <= k < normalized@.len() && normalized@[k]@ == registry_extension(
                            #[trigger] text_extensions@[j]@,
                        ),
                forall|a: int, b: int|
                    0 <= a < b < normalized@.len() ==> #[trigger] normalized@[a]@
                        != #[trigger] normalized@[b]@,
            decreases text_extensions.len() - i,
        {
            let key = normalize_extension(text_extensions[i].as_str());
            if !crate::indexer::contains_string(&normalized, &key) {
                let ghost before = normalized@;
                normalized.push(key);
                assert forall|k: int| 0 <= k < normalized@.len() implies exists|j: int|
                    0 <= j < i + 1 && #[trigger] normalized@[k]@ == registry_extension(
                        text_extensions@[j]@,
                    ) by {
                    if k < before.len() {
                        assert(normalized@[k] == before[k]);
                    } else {
                        assert(normalized@[k]@ == registry_extension(text_extensions@[i as int]@));
                    }
                }
                assert forall|j: int| 0 <= j < i + 1 implies exists|k: int|
                    0 <= k < normalized@.len() && normalized@[k]@ == registry_extension(
                        #[trigger] text_extensions@[j]@,
                    ) by {
                    if j < i {
                        let k = choose|k: int|
                            0 <= k < before.len() && before[k]@ == registry_extension(
                                text_extensions@[j]@,
                            );
                        assert(normalized@[k] == before[k]);
                    } else {
                        assert(normalized@[before.len() as int]@ == registry_extension(
                            text_extensions@[j]@,
                        ));
                    }
                }
                assert forall|a: int, b: int|
                    0 <= a < b < normalized@.len() implies #[trigger] normalized@[a]@
                    != #[trigger] normalized@[b]@ by {
                    assert(normalized@[a] == before[a]);
                    if b < before.len() {
                        assert(normalized@[b] == before[b]);
                    }
                }
            } else {
                assert forall|j: int| 0 <= j < i + 1 implies exists|k: int|
                    0 <= k < normalized@.len() && normalized@[k]@ == registry_extension(
                        #[trigger] text_extensions@[j]@,
                    ) by {
                    if j == i {
                        let k = choose|k: int| 0 <= k < normalized@.len() && #[trigger] normalized@[k]@ == key@;
                        assert(normalized@[k]@ == registry_extension(text_extensions@[j]@));
                    }
                }
                assert forall|k: int| 0 <= k < normalized@.len() implies exists|j: int|
                    0 <= j < i + 1 && #[trigger] normalized@[k]@ == registry_extension(
                        text_extensions@[j]@,
                    ) by {
                    let j = choose|j: int|
                        0 <= j < i && #[trigger] normalized@[k]@ == registry_extension(
                            text_extensions@[j]@,
                        );
                }
            }
            i = i + 1;
        }
        let r = Self { text_extensions: normalized, text_parser: Utf8TextParser::new(parse_error_code) };
        assert(r.extensions() =~= Set::new(
            |e: Seq<char>|
                exists|i: int|
                    0 <= i < text_extensions@.len() && registry_extension(
                        #[trigger] text_extensions@[i]@,
                    ) == e,
        )) by {
            assert forall|e: Seq<char>| r.extensions().contains(e) implies exists|i: int|
                0 <= i < text_extensions@.len() && registry_extension(
                    #[trigger] text_extensions@[i]@,
                ) == e by {
                let k = choose|k: int|
                    0 <= k < normalized@.len() && #[trigger] normalized@[k]@ == e;
                let j = choose|j: int|
                    0 <= j < text_extensions@.len() && #[trigger] normalized@[k]@ == registry_extension(
                        text_extensions@[j]@,
                    );
                assert(registry_extension(text_extensions@[j]@) == e);
            }
            assert forall|e: Seq<char>|
                (exists|i: int|
                    0 <= i < text_extensions@.len() && registry_extension(
                        #[trigger] text_extensions@[i]@,
                    ) == e) implies r.extensions().contains(e) by {
                let j = choose|j: int|
                    0 <= j < text_extensions@.len() && registry_extension(
                        #[trigger] text_extensions@[j]@,
                    ) == e;
                let k = choose|k: int|
                    0 <= k < normalized@.len() && normalized@[k]@ == registry_extension(
                        #[trigger] text_extensions@[j]@,
                    );
                assert(normalized@[k]@ == e);
            }
        }
        assert(r.listed().no_duplicates()) by {
            assert forall|a: int, b: int|
                0 <= a < r.listed().len() && 0 <= b < r.listed().len() && a != b implies r.listed()[a]
                != r.listed()[b] by {
                if a < b {
                    assert(normalized@[a]@ != normalized@[b]@);
                } else {
                    assert(normalized@[b]@ != normalized@[a]@);
                }
            }
        }
        r
    }

    /// Parses `bytes` as text when `extension` is configured as a text
    /// extension; otherwise fails with the configured error code.
    pub fn parse_extension(&self, extension: &str, bytes: &[u8]) -> (r: Result<String, ParseFailure>)
        ensures
            r is Ok <==> self.extensions().contains(registry_extension(extension@)) && valid_utf8(
                bytes@,
            ),
            r matches Ok(text) ==> text@ == decode_utf8(bytes@),
            r matches Err(f) ==> f.code@ == self.error_code(),
    {
        if self.supports_extension(extension) {
            return self.text_parser.parse(bytes);
        }
        Err(ParseFailure { code: self.text_parser.parse_error_code.clone() })
    }

    pub fn supports_extension(&self, extension: &str) -> (r: bool)
        ensures
            r == self.extensions().contains(registry_extension(extension@)),
    {
        let key = normalize_extension(extension);
        let mut i: usize = 0;
        while i < self.text_extensions.len()
            invariant
                i <= self.text_extensions@.len(),
                key@ == registry_extension(extension@),
                forall|k: int| 0 <= k < i ==> self.text_extensions@[k]@ != key@,
            decreases self.text_extensions.len() - i,
        {
            let same = self.text_extensions[i] == key;
            if same {
                assert(self.text_extensions@[i as int]@ == key@);
                assert(self.extensions().contains(key@));
                return true;
            }
            i = i + 1;
        }
        false
    }
}

fn normalize_extension(extension: &str) -> (r: String)
    ensures
        r@ == registry_extension(extension@),
{
    let raw = chars_of(extension);
    let trimmed = trim_chars(&raw);
    let lowered = ascii_lowercase(&trimmed);
    if lowered.len() == 0 || lowered[0] == '.' {
        string_of(&lowered)
    } else {
        let dot = vec!['.'];
        let joined = concat_chars(&dot, &lowered);
        assert(dot@ =~= seq!['.']);
        string_of(&joined)
    }
}

} // verus!

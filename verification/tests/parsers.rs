use maisou::parsers::{ContentParser, ParseFailure, ParserRegistry, Utf8TextParser};

#[test]
fn parsers_utf8_text_content_for_configured_text_extension() {
    let registry = ParserRegistry::from_text_extensions(
        vec![".md".to_string(), ".txt".to_string()],
        "Parse_Error".to_string(),
    );

    let content = registry
        .parse_extension(".md", b"AnyTXT parser boundary")
        .expect("text parser succeeds");

    assert_eq!(content, "AnyTXT parser boundary");
}

#[test]
fn parsers_malformed_utf8_with_configured_error_code() {
    let parser = Utf8TextParser::new("Parse_Error".to_string());

    let failure = parser.parse(&[0xff, 0xfe, 0xfd]).expect_err("parse fails");

    assert_eq!(
        failure,
        ParseFailure {
            code: "Parse_Error".to_string()
        }
    );
}

#[test]
fn parsers_report_unsupported_extension_without_fixed_business_code() {
    let registry = ParserRegistry::from_text_extensions(
        vec![".md".to_string()],
        "Parse_Error".to_string(),
    );

    assert!(!registry.supports_extension(".pdf"));
    assert!(registry.supports_extension(".md"));
}

#[test]
fn registry_normalizes_configured_and_queried_extensions() {
    let registry = ParserRegistry::from_text_extensions(
        vec![" MD ".to_string(), "txt".to_string()],
        "Parse_Error".to_string(),
    );
    assert!(registry.supports_extension(".md"));
    assert!(registry.supports_extension("MD"));
    assert!(registry.supports_extension(".TXT"));
    assert!(!registry.supports_extension(".json"));
}

#[test]
fn unsupported_extension_fails_with_configured_code_even_for_text_bytes() {
    let registry =
        ParserRegistry::from_text_extensions(vec![".md".to_string()], "Custom_Code".to_string());
    let failure = registry
        .parse_extension(".pdf", b"plain text")
        .expect_err("pdf is not a text extension");
    assert_eq!(failure.code, "Custom_Code");
}

#[test]
fn utf8_parser_decodes_multibyte_text() {
    let parser = Utf8TextParser::new("Parse_Error".to_string());
    let text = parser.parse("麦搜 söker".as_bytes()).expect("valid utf-8");
    assert_eq!(text, "麦搜 söker");
}

#[test]
fn registry_lists_each_extension_once() {
    let a = ParserRegistry::from_text_extensions(
        vec![".md".to_string(), "MD".to_string(), " .md ".to_string()],
        "Parse_Error".to_string(),
    );
    let b = ParserRegistry::from_text_extensions(vec![".md".to_string()], "Parse_Error".to_string());
    assert_eq!(a, b);
    assert!(a.supports_extension("md"));
}

use translation_fiesta_rust::error::TranslationError;
use translation_fiesta_rust::request::{
    request_timeout_seconds, request_url, user_agent_header, validate_language_code,
    ACCEPT_HEADER, DEFAULT_TIMEOUT_SECONDS,
};
use translation_fiesta_rust::text::parse_u64;

#[test]
fn accepts_two_letter_codes() {
    assert_eq!(validate_language_code("en"), Ok(()));
    assert_eq!(validate_language_code("JA"), Ok(()));
    assert_eq!(validate_language_code("dE"), Ok(()));
}

#[test]
fn refuses_other_codes_and_quotes_them() {
    for code in [
        "", "e", "eng", "pt-BR", "e1", "e ", " en", "en\n", " de ", "\u{e9}\u{e9}", "\u{e9}",
        "zh-Hans",
    ] {
        assert_eq!(
            validate_language_code(code),
            Err(TranslationError::InvalidInput(format!(
                "invalid language code: {}",
                code
            )))
        );
    }
}

#[test]
fn builds_the_request_address() {
    assert_eq!(
        request_url("en", "ja", "hello"),
        "https://translate.googleapis.com/translate_a/single?client=gtx&sl=en&tl=ja&dt=t&q=hello"
    );
}

#[test]
fn percent_encodes_the_text() {
    assert_eq!(
        request_url("en", "ja", "Hello, world! a-b_c.d~e/f?g=h&i"),
        "https://translate.googleapis.com/translate_a/single?client=gtx&sl=en&tl=ja&dt=t&q=Hello%2C%20world%21%20a-b_c.d~e%2Ff%3Fg%3Dh%26i"
    );
    assert_eq!(
        request_url("ja", "en", "\u{3053}\u{3093} +\n"),
        "https://translate.googleapis.com/translate_a/single?client=gtx&sl=ja&tl=en&dt=t&q=%E3%81%93%E3%82%93%20%2B%0A"
    );
    assert_eq!(
        request_url("en", "ja", ""),
        "https://translate.googleapis.com/translate_a/single?client=gtx&sl=en&tl=ja&dt=t&q="
    );
}

#[test]
fn reads_the_configured_timeout() {
    assert_eq!(DEFAULT_TIMEOUT_SECONDS, 20);
    assert_eq!(request_timeout_seconds(None), 20);
    assert_eq!(request_timeout_seconds(Some("45")), 45);
    assert_eq!(request_timeout_seconds(Some("+7")), 7);
    assert_eq!(request_timeout_seconds(Some("0")), 0);
    assert_eq!(request_timeout_seconds(Some("007")), 7);
    assert_eq!(request_timeout_seconds(Some("")), 20);
    assert_eq!(request_timeout_seconds(Some(" 45")), 20);
    assert_eq!(request_timeout_seconds(Some("45s")), 20);
    assert_eq!(request_timeout_seconds(Some("-1")), 20);
    assert_eq!(request_timeout_seconds(Some("+")), 20);
    assert_eq!(request_timeout_seconds(Some("++1")), 20);
    assert_eq!(request_timeout_seconds(Some("1.5")), 20);
    assert_eq!(
        request_timeout_seconds(Some("18446744073709551615")),
        18_446_744_073_709_551_615
    );
    assert_eq!(request_timeout_seconds(Some("18446744073709551616")), 20);
    assert_eq!(request_timeout_seconds(Some("99999999999999999999999")), 20);
}

#[test]
fn parses_unsigned_numbers_as_the_standard_library_does() {
    for text in [
        "", "+", "-", "0", "+0", "-0", "12", "012", "1 ", " 1", "1_000", "18446744073709551615",
        "18446744073709551616", "28446744073709551615", "٣", "1٣", "+-1", "9999999999999999999",
    ] {
        assert_eq!(parse_u64(text), text.parse::<u64>().ok(), "{:?}", text);
    }
}

#[test]
fn reads_the_configured_user_agent() {
    assert_eq!(ACCEPT_HEADER, "application/json,text/plain,*/*");
    assert_eq!(user_agent_header(None), None);
    assert_eq!(user_agent_header(Some("")), None);
    assert_eq!(user_agent_header(Some("  \t")), None);
    assert_eq!(user_agent_header(Some(" agent/1.0 ")), Some("agent/1.0".to_string()));
}

use manga_parser::parser::parser_for_url;
use manga_parser::parser::resolve_parser;
use manga_parser::parser::ParserError;
use manga_parser::parser::SiteParser;

#[test]
fn resolve_known_host() {
    let r = resolve_parser("asura.gg");
    assert!(matches!(r, Ok(SiteParser::AsuraScans(_))));
}

#[test]
fn resolve_unknown_host() {
    let r = resolve_parser("example.com");
    assert_eq!(r, Err(ParserError::HostNotFound));
}

#[test]
fn resolve_is_deterministic() {
    let r1 = resolve_parser("asura.gg");
    let r2 = resolve_parser("asura.gg");
    assert_eq!(r1, r2);
    let e1 = resolve_parser("nowhere.invalid");
    let e2 = resolve_parser("nowhere.invalid");
    assert_eq!(e1, e2);
}

#[test]
fn resolve_host_is_case_sensitive_match_only() {
    // The registry maps the exact host string; anything else is HostNotFound,
    // never a DOM-related error.
    for host in ["asura", "gg", "asura.gg.evil.com", ""] {
        assert_eq!(resolve_parser(host), Err(ParserError::HostNotFound));
    }
}

#[test]
fn url_with_registered_host() {
    let r = parser_for_url("https://asura.gg/manga/0223090894-return-of-the-mount-hua-sect/");
    assert!(matches!(r, Ok(SiteParser::AsuraScans(_))));
}

#[test]
fn url_with_unregistered_host() {
    let r = parser_for_url("https://example.com/manga/1");
    assert_eq!(r, Err(ParserError::HostNotFound));
}

#[test]
fn url_that_does_not_parse() {
    let r = parser_for_url("not a url at all");
    assert_eq!(r, Err(ParserError::HostNotFound));
}

#[test]
fn url_without_host() {
    let r = parser_for_url("data:text/plain,Stuff");
    assert_eq!(r, Err(ParserError::HostNotFound));
}

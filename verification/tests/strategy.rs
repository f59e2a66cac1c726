use manga_parser::parser::asura_scans::AsuraScansParser;
use manga_parser::parser::parser_for_url;
use manga_parser::parser::ParserError;

const URL: &str = "https://asura.gg/manga/0223090894-return-of-the-mount-hua-sect/";

fn page(heading: &str, with_title: bool, image: &str) -> String {
    let mut html = String::from("<html><body>");
    if with_title {
        html.push_str("<h1> Return of the Mount Hua Sect </h1>");
    }
    html.push_str("<div id=\"chapterlist\"><ul><li>");
    html.push_str(heading);
    html.push_str("</li></ul></div>");
    html.push_str(image);
    html.push_str("</body></html>");
    html
}

const COVER: &str = "<img class=\"attachment- size- wp-post-image\" src=\"https://img.example/cover.png\">";

#[test]
fn full_page_end_to_end() {
    let html = page("Chapter 45.5: Into the Fire", true, COVER);
    let out = AsuraScansParser.parse(&html, URL).unwrap();
    assert_eq!(out.record.id, None);
    assert_eq!(out.record.title, "Return of the Mount Hua Sect");
    assert_eq!(out.record.chapter, 45);
    assert_eq!(out.record.chapter_title, Some("Into the Fire".to_string()));
    assert_eq!(
        out.record.image_url,
        Some("https://img.example/cover.png".to_string())
    );
    assert_eq!(out.record.urls, vec![URL.to_string()]);
    assert_eq!(out.image_diagnostic, None);
}

#[test]
fn source_urls_have_length_one() {
    for url in [URL, "https://asura.gg/", "https://asura.gg/a/b?c=d#e"] {
        let html = page("Chapter 7", true, COVER);
        let out = AsuraScansParser.parse(&html, url).unwrap();
        assert_eq!(out.record.urls.len(), 1);
        assert_eq!(out.record.urls[0], url);
    }
}

#[test]
fn missing_chapter_heading_is_fatal() {
    let html = "<html><body><h1>Title</h1></body></html>";
    let r = AsuraScansParser.parse(html, URL);
    assert_eq!(r, Err(ParserError::ElementNotFound));
}

#[test]
fn heading_not_direct_child_is_fatal() {
    // The selector asks for a ul directly under #chapterlist.
    let html = "<html><body><h1>Title</h1>\
                <div id=\"chapterlist\"><div><ul><li>Chapter 3</li></ul></div></div>\
                </body></html>";
    let r = AsuraScansParser.parse(html, URL);
    assert_eq!(r, Err(ParserError::ElementNotFound));
}

#[test]
fn missing_title_is_fatal() {
    let html = page("Chapter 12: A Start", false, COVER);
    let r = AsuraScansParser.parse(&html, URL);
    assert_eq!(r, Err(ParserError::ElementNotFound));
}

#[test]
fn heading_without_digits_is_numeric_failure() {
    let html = page("Prologue: Before It All", true, COVER);
    let r = AsuraScansParser.parse(&html, URL);
    assert_eq!(r, Err(ParserError::NumericFormatFailure));
}

#[test]
fn chapter_number_too_large_is_numeric_failure() {
    let html = page("Chapter 99999: Beyond", true, COVER);
    let r = AsuraScansParser.parse(&html, URL);
    assert_eq!(r, Err(ParserError::NumericFormatFailure));
}

#[test]
fn chapter_number_at_type_limit_parses() {
    let html = page("Chapter 32767", true, COVER);
    let out = AsuraScansParser.parse(&html, URL).unwrap();
    assert_eq!(out.record.chapter, 32767);
}

#[test]
fn chapter_number_keeps_value_of_leading_zeros() {
    let html = page("Chapter 0102: Hidden", true, COVER);
    let out = AsuraScansParser.parse(&html, URL).unwrap();
    assert_eq!(out.record.chapter, 102);
}

#[test]
fn missing_cover_image_is_not_fatal() {
    let html = page("Chapter 45.5: Into the Fire", true, "");
    let out = AsuraScansParser.parse(&html, URL).unwrap();
    assert_eq!(out.record.image_url, None);
    assert_eq!(out.image_diagnostic, Some(ParserError::ElementNotFound));
    assert_eq!(out.record.chapter, 45);
    assert_eq!(out.record.chapter_title, Some("Into the Fire".to_string()));
}

#[test]
fn cover_image_without_src_is_not_fatal() {
    let html = page(
        "Chapter 45.5: Into the Fire",
        true,
        "<img class=\"attachment- size- wp-post-image\" data-src=\"lazy.png\">",
    );
    let out = AsuraScansParser.parse(&html, URL).unwrap();
    assert_eq!(out.record.image_url, None);
    assert_eq!(out.image_diagnostic, Some(ParserError::AttributeNotFound));
}

#[test]
fn heading_without_separator_leaves_chapter_title_unset() {
    let html = page("Chapter 45", true, COVER);
    let out = AsuraScansParser.parse(&html, URL).unwrap();
    assert_eq!(out.record.chapter, 45);
    assert_eq!(out.record.chapter_title, None);
}

#[test]
fn heading_with_blank_after_separator_leaves_chapter_title_unset() {
    let html = page("Chapter 45:   ", true, COVER);
    let out = AsuraScansParser.parse(&html, URL).unwrap();
    assert_eq!(out.record.chapter_title, None);
}

#[test]
fn heading_text_is_concatenated_from_nested_nodes() {
    let html = page("Chapter <b>8</b>: <i>Split</i> Nodes", true, COVER);
    let out = AsuraScansParser.parse(&html, URL).unwrap();
    assert_eq!(out.record.chapter, 8);
    assert_eq!(out.record.chapter_title, Some("Split Nodes".to_string()));
}

#[test]
fn parse_is_deterministic() {
    let html = page("Chapter 45.5: Into the Fire", true, COVER);
    let r1 = AsuraScansParser.parse(&html, URL);
    let r2 = AsuraScansParser.parse(&html, URL);
    assert_eq!(r1, r2);

    let broken = "<html><body></body></html>";
    let e1 = AsuraScansParser.parse(broken, URL);
    let e2 = AsuraScansParser.parse(broken, URL);
    assert_eq!(e1, e2);
}

#[test]
fn dispatch_through_registry() {
    let strategy = parser_for_url(URL).unwrap();
    let html = page("Chapter 45.5: Into the Fire", true, COVER);
    let out = strategy.parse(&html, URL).unwrap();
    assert_eq!(out.record.chapter, 45);
    assert_eq!(out.record.title, "Return of the Mount Hua Sect");
}

//! Parsing strategy for the Asura Scans reader site.

use vstd::prelude::*;

use crate::parser::first_digit_run;
use crate::parser::digits_value;
use crate::parser::first_src_spec;
use crate::parser::first_text_spec;
use crate::parser::lemma_digits_value_nonneg;
use crate::parser::lemma_first_digit_run_digits;
use crate::parser::parse_chapter_number;
use crate::parser::text_after_separator;
use crate::parser::trim_text;
use crate::parser::ParseHelper;
use crate::parser::ParserError;
use crate::Manga;
use crate::MangaModel;

verus! {

/// CSS selector for the region listing the most recent chapter.
pub open spec fn chapter_heading_selector() -> Seq<char> {
    "#chapterlist > ul"@
}

/// CSS selector for the manga's display title.
pub open spec fn title_selector() -> Seq<char> {
    "h1"@
}

/// CSS selector for the cover image.
pub open spec fn cover_image_selector() -> Seq<char> {
    "img.attachment-.size-.wp-post-image"@
}

/// Mathematical model of a [`ParseOutcome`].
pub ghost struct OutcomeModel {
    pub record: MangaModel,
    pub image_diagnostic: Option<ParserError>,
}

/// A successful extraction: the assembled record, together with the failure
/// kind the cover-image lookup swallowed, if it failed. The cover image is
/// optional metadata, so its absence is reported as a diagnostic beside a
/// complete record rather than as a failure of the parse.
#[derive(Debug, Clone, PartialEq, Eq)]
pub struct ParseOutcome {
    pub record: Manga,
    pub image_diagnostic: Option<ParserError>,
}

impl View for ParseOutcome {
    type V = OutcomeModel;

    open spec fn view(&self) -> OutcomeModel {
        OutcomeModel { record: self.record@, image_diagnostic: self.image_diagnostic }
    }
}

/// The cover-image URL the strategy records: present exactly when the
/// cover-image element exists and carries a `src` attribute.
pub open spec fn image_url_model(html: Seq<char>) -> Option<Seq<char>> {
    match first_src_spec(html, cover_image_selector()) {
        Some(Some(v)) => Some(v),
        _ => None,
    }
}

/// The non-fatal diagnostic of the cover-image lookup: the failure kind that
/// was swallowed, absent when the lookup succeeded.
pub open spec fn image_diagnostic_model(html: Seq<char>) -> Option<ParserError> {
    match first_src_spec(html, cover_image_selector()) {
        Some(Some(_)) => None,
        Some(None) => Some(ParserError::AttributeNotFound),
        None => Some(ParserError::ElementNotFound),
    }
}

/// What parsing an Asura Scans page yields, as a function of the document
/// text and the page's URL alone: the chapter-heading text and the title are
/// required, the chapter number is the heading's first digit run, the chapter
/// title is the heading's trimmed text after `':'`, and the cover image is
/// optional.
pub open spec fn parse_model(html: Seq<char>, url: Seq<char>) -> Result<
    OutcomeModel,
    ParserError,
> {
    match first_text_spec(html, chapter_heading_selector()) {
        None => Err(ParserError::ElementNotFound),
        Some(raw0) => {
            let raw = trim_text(raw0);
            match first_text_spec(html, title_selector()) {
                None => Err(ParserError::ElementNotFound),
                Some(title0) => {
                    let digits = first_digit_run(raw);
                    if digits.len() == 0 || digits_value(digits) > i16::MAX {
                        Err(ParserError::NumericFormatFailure)
                    } else {
                        Ok(
                            OutcomeModel {
                                record: MangaModel {
                                    id: None,
                                    title: trim_text(title0),
                                    image_url: image_url_model(html),
                                    urls: seq![url],
                                    chapter: digits_value(digits),
                                    chapter_title: text_after_separator(raw, ':'),
                                },
                                image_diagnostic: image_diagnostic_model(html),
                            },
                        )
                    }
                },
            }
        },
    }
}

/// The parsing strategy for pages served from `asura.gg`.
#[derive(Debug, Clone, Copy, PartialEq, Eq, Structural)]
pub struct AsuraScansParser;

impl AsuraScansParser {
    /// Extract the latest-chapter record from a page of the Asura Scans
    /// site. The outcome is exactly [`parse_model`] of the document text and
    /// the URL: a fatal failure yields no record, a failed cover-image
    /// lookup yields a complete record without `image_url` plus a
    /// diagnostic, and the record always cites `url` as its single source.
    pub fn parse(&self, deserialized_html: &str, url: &str) -> (r: Result<
        ParseOutcome,
        ParserError,
    >)
        ensures
            (match r {
                Ok(out) => parse_model(deserialized_html@, url@) == Ok::<
                    OutcomeModel,
                    ParserError,
                >(out@) && out.record@.wf(),
                Err(e) => parse_model(deserialized_html@, url@) == Err::<
                    OutcomeModel,
                    ParserError,
                >(e),
            }),
    {
        let raw_chapter_title = match ParseHelper::get_text_from_first_result(
            deserialized_html,
            "#chapterlist > ul",
        ) {
            Ok(t) => t,
            Err(e) => {
                return Err(e);
            },
        };
        let ghost raw = raw_chapter_title@;

        let title = match ParseHelper::get_text_from_first_result(deserialized_html, "h1") {
            Ok(t) => t,
            Err(e) => {
                return Err(e);
            },
        };

        let digit_run = ParseHelper::get_first_number_from_string(raw_chapter_title.as_str());
        proof {
            lemma_first_digit_run_digits(raw);
        }
        let chapter = match parse_chapter_number(digit_run.as_str()) {
            Some(v) => v,
            None => {
                return Err(ParserError::NumericFormatFailure);
            },
        };

        let chapter_title = ParseHelper::get_string_post_separator(raw_chapter_title, ':');

        let (image_url, image_diagnostic) = match ParseHelper::get_src_from_first_result(
            deserialized_html,
            "img.attachment-.size-.wp-post-image",
        ) {
            Ok(v) => (Some(v), None::<ParserError>),
            Err(e) => (None::<String>, Some(e)),
        };

        let mut urls: Vec<String> = Vec::new();
        urls.push(url.to_owned());
        proof {
            assert(urls.deep_view() =~= seq![url@]);
        }

        let record = Manga { id: None, title, image_url, urls, chapter, chapter_title };
        Ok(ParseOutcome { record, image_diagnostic })
    }
}

/// Parsing is deterministic: the outcome is a function of the document text
/// and the source URL alone, so identical input yields an identical record
/// or the identical failure kind.
pub proof fn lemma_parse_deterministic(
    html1: Seq<char>,
    url1: Seq<char>,
    html2: Seq<char>,
    url2: Seq<char>,
)
    requires
        html1 == html2,
        url1 == url2,
    ensures
        parse_model(html1, url1) == parse_model(html2, url2),
{
}

/// A missing chapter-heading element is fatal: the parse reports
/// `ElementNotFound` and yields no record, however the rest of the document
/// looks.
pub proof fn lemma_missing_heading_fatal(html: Seq<char>, url: Seq<char>)
    requires
        first_text_spec(html, chapter_heading_selector()) is None,
    ensures
        parse_model(html, url) == Err::<OutcomeModel, ParserError>(ParserError::ElementNotFound),
{
}

/// A missing cover image is not fatal: when the required lookups succeed and
/// the chapter number is in range, the parse still succeeds, the record
/// simply lacks `image_url`, and a diagnostic reports the swallowed failure
/// kind.
pub proof fn lemma_missing_image_not_fatal(html: Seq<char>, url: Seq<char>)
    requires
        first_text_spec(html, chapter_heading_selector()) is Some,
        first_text_spec(html, title_selector()) is Some,
        ({
            let raw = trim_text(first_text_spec(html, chapter_heading_selector())->0);
            first_digit_run(raw).len() > 0 && digits_value(first_digit_run(raw)) <= i16::MAX
        }),
        !(first_src_spec(html, cover_image_selector()) matches Some(Some(_))),
    ensures
        parse_model(html, url) matches Ok(out) && out.record.image_url is None
            && out.image_diagnostic is Some,
{
}

/// Round trip of the source URL: any record the parse produces cites exactly
/// the one URL it was extracted from, whatever the document holds.
pub proof fn lemma_single_source_url(html: Seq<char>, url: Seq<char>)
    ensures
        parse_model(html, url) matches Ok(out) ==> out.record.urls == seq![url]
            && out.record.urls.len() == 1,
{
}

/// Every record the parse produces is well-formed: a non-negative chapter
/// number and at least one source URL.
pub proof fn lemma_parse_wf(html: Seq<char>, url: Seq<char>)
    ensures
        parse_model(html, url) matches Ok(out) ==> out.record.wf(),
{
    if parse_model(html, url) is Ok {
        let raw = trim_text(first_text_spec(html, chapter_heading_selector())->0);
        lemma_first_digit_run_digits(raw);
        lemma_digits_value_nonneg(first_digit_run(raw));
    }
}

} // verus!

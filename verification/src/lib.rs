//! Extraction of structured "latest chapter" records from manga-reader pages.
//!
//! The crate is organised around one data type, [`Manga`], and the [`parser`]
//! module, which maps a page's host to a site strategy and runs that strategy
//! over the page's markup to produce a record or a typed failure.

use vstd::prelude::*;

pub mod parser;

verus! {

/// Mathematical model of a [`Manga`] record: every field as a plain
/// mathematical value.
pub ghost struct MangaModel {
    pub id: Option<int>,
    pub title: Seq<char>,
    pub image_url: Option<Seq<char>>,
    pub urls: Seq<Seq<char>>,
    pub chapter: int,
    pub chapter_title: Option<Seq<char>>,
}

impl MangaModel {
    /// Every record the extraction subsystem hands out satisfies this:
    /// a non-negative chapter number and at least one source URL.
    pub open spec fn wf(&self) -> bool {
        &&& self.chapter >= 0
        &&& self.urls.len() > 0
    }
}

/// An extracted "latest chapter" record.
///
/// `id` is absent until a persistence layer assigns one; the extraction
/// subsystem never sets it. `image_url` and `chapter_title` are optional
/// metadata; `urls` holds the pages the record was extracted from and is
/// never empty.
#[derive(Debug, Clone, PartialEq, Eq)]
pub struct Manga {
    pub id: Option<i16>,
    pub title: String,
    pub image_url: Option<String>,
    pub urls: Vec<String>,
    pub chapter: i16,
    pub chapter_title: Option<String>,
}

impl View for Manga {
    type V = MangaModel;

    open spec fn view(&self) -> MangaModel {
        MangaModel {
            id: match self.id {
                Some(i) => Some(i as int),
                None => None,
            },
            title: self.title@,
            image_url: self.image_url.deep_view(),
            urls: self.urls.deep_view(),
            chapter: self.chapter as int,
            chapter_title: self.chapter_title.deep_view(),
        }
    }
}

} // verus!

//! The records that the library reads, merges and writes.
use vstd::prelude::*;
use crate::chapter::ChapterNumber;

verus! {

/// What a tracked entry holds, as mathematical values.
pub struct LineView {
    pub url: Seq<char>,
    pub last: int,
    pub title: Seq<char>,
}

/// One tracked series: its URL, the last chapter read and its title.
#[derive(Debug)]
pub struct CSVLine {
    pub url: String,
    pub last_chapter_num: ChapterNumber,
    pub title: String,
}

impl View for CSVLine {
    type V = LineView;

    open spec fn view(&self) -> LineView {
        LineView { url: self.url@, last: self.last_chapter_num.value(), title: self.title@ }
    }
}

impl Clone for CSVLine {
    fn clone(&self) -> (r: CSVLine)
        ensures
            r@ == self@,
    {
        CSVLine {
            url: self.url.clone(),
            last_chapter_num: self.last_chapter_num,
            title: self.title.clone(),
        }
    }
}

impl PartialEq for CSVLine {
    fn eq(&self, o: &CSVLine) -> (r: bool)
        ensures
            r == (self@ == o@),
    {
        self.url == o.url && self.last_chapter_num.milli == o.last_chapter_num.milli && self.title
            == o.title
    }
}

impl vstd::std_specs::cmp::PartialEqSpecImpl for CSVLine {
    open spec fn obeys_eq_spec() -> bool {
        true
    }

    open spec fn eq_spec(&self, o: &CSVLine) -> bool {
        self@ == o@
    }
}

/// The views of a sequence of entries.
pub open spec fn views(s: Seq<CSVLine>) -> Seq<LineView> {
    s.map_values(|l: CSVLine| l@)
}

pub proof fn lemma_views_push(s: Seq<CSVLine>, x: CSVLine)
    ensures
        views(s.push(x)) == views(s).push(x@),
{
    assert(views(s.push(x)) =~= views(s).push(x@));
}

/// What a resolved chapter holds, as mathematical values.
pub struct ChapterView {
    pub manga_title: Seq<char>,
    pub url: Seq<char>,
    pub chapter_title: Seq<char>,
    pub num: int,
}

/// The latest chapter of a series as seen on its page.
#[derive(Debug)]
pub struct MangaChapter {
    pub manga_title: String,
    pub url: String,
    pub chapter_title: String,
    pub num: ChapterNumber,
}

impl View for MangaChapter {
    type V = ChapterView;

    open spec fn view(&self) -> ChapterView {
        ChapterView {
            manga_title: self.manga_title@,
            url: self.url@,
            chapter_title: self.chapter_title@,
            num: self.num.value(),
        }
    }
}

impl Clone for MangaChapter {
    fn clone(&self) -> (r: MangaChapter)
        ensures
            r@ == self@,
    {
        MangaChapter {
            manga_title: self.manga_title.clone(),
            url: self.url.clone(),
            chapter_title: self.chapter_title.clone(),
            num: self.num,
        }
    }
}

/// A tracked entry together with the chapter just resolved for it.
#[derive(Debug)]
pub struct LineChapter {
    pub line: CSVLine,
    pub chapter: MangaChapter,
}

impl LineChapter {
    /// Whether the resolved chapter is past the last one read.
    pub fn has_update(&self) -> (r: bool)
        ensures
            r == (self.chapter.num.value() > self.line.last_chapter_num.value()),
    {
        self.chapter.num.milli > self.line.last_chapter_num.milli
    }
}

/// Why the chapter list or the title could not be read from a page.
#[derive(Clone, Copy, Debug, PartialEq, Eq, Structural)]
pub enum ExtractionError {
    TitleContainerMissing,
    TitleUnparseable,
    ChapterListAbsent,
    ChapterListEmpty,
    ChapterLinkUnreachable,
}

/// What made the resolution of a URL fail.
#[derive(Debug)]
pub enum FailureCause {
    /// The page could not be fetched; the transport's message.
    Network(String),
    /// The page was fetched but did not have the expected layout.
    Extraction(ExtractionError),
}

/// A failed resolution of the latest chapter of a URL.
#[derive(Debug)]
pub struct ScraperError {
    pub url: String,
    pub cause: FailureCause,
}

/// The sentence that describes a failure of the resolution of `url`.
pub open spec fn reason_text(url: Seq<char>, cause: FailureCause) -> Seq<char> {
    match cause {
        FailureCause::Network(m) => "The page at URL "@ + url + " could not be fetched: "@ + m@,
        FailureCause::Extraction(ExtractionError::TitleContainerMissing) => "The title of the manga at URL "@
            + url + " cannot be found in the page."@,
        FailureCause::Extraction(ExtractionError::TitleUnparseable) => "The title of the manga at URL "@
            + url + " cannot be parsed."@,
        FailureCause::Extraction(ExtractionError::ChapterListAbsent) => "The chapter list is absent."@,
        FailureCause::Extraction(ExtractionError::ChapterListEmpty) => "The chapter list is empty."@,
        FailureCause::Extraction(ExtractionError::ChapterLinkUnreachable) => "The chapter link is unreachable."@,
    }
}

impl ScraperError {
    /// A sentence that describes the failure.
    pub fn reason(&self) -> (r: String)
        ensures
            r@ == reason_text(self.url@, self.cause),
    {
        let mut r = String::new();
        match &self.cause {
            FailureCause::Network(message) => {
                r.append("The page at URL ");
                r.append(self.url.as_str());
                r.append(" could not be fetched: ");
                r.append(message.as_str());
            },
            FailureCause::Extraction(ExtractionError::TitleContainerMissing) => {
                r.append("The title of the manga at URL ");
                r.append(self.url.as_str());
                r.append(" cannot be found in the page.");
            },
            FailureCause::Extraction(ExtractionError::TitleUnparseable) => {
                r.append("The title of the manga at URL ");
                r.append(self.url.as_str());
                r.append(" cannot be parsed.");
            },
            FailureCause::Extraction(ExtractionError::ChapterListAbsent) => {
                r.append("The chapter list is absent.");
            },
            FailureCause::Extraction(ExtractionError::ChapterListEmpty) => {
                r.append("The chapter list is empty.");
            },
            FailureCause::Extraction(ExtractionError::ChapterLinkUnreachable) => {
                r.append("The chapter link is unreachable.");
            },
        }
        assert(r@ =~= reason_text(self.url@, self.cause));
        r
    }
}

} // verus!

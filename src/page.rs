//! Reading the latest chapter of a series from its page.
use vstd::prelude::*;
use scraper::{ElementRef, Html, Selector};
use crate::chapter::{ChapterNumber, number_of_text, parse_chapter_number};
use crate::models::{ChapterView, ExtractionError, FailureCause, MangaChapter, ScraperError};
use crate::text::{contains_text, occurs_in};

verus! {

#[verifier::external_type_specification]
#[verifier::external_body]
pub struct ExHtml(Html);

#[verifier::external_type_specification]
#[verifier::external_body]
pub struct ExElementRef<'a>(ElementRef<'a>);

/// In the document that scraper parses from `page`, following `chain`
/// reaches an element: its first selector is matched against the whole
/// document and each further one against the descendants of the element
/// reached so far, the first match being taken each time (a selector that
/// does not parse matches nothing).
pub uninterp spec fn reaches(page: Seq<char>, chain: Seq<Seq<char>>) -> bool;

/// The value of the attribute `name` of the element that `chain` reaches in
/// the document parsed from `page`.
pub uninterp spec fn attr_at(page: Seq<char>, chain: Seq<Seq<char>>, name: Seq<char>) -> Option<
    Seq<char>,
>;

/// A parsed page, with the text it was parsed from. Its fields are private:
/// only `parse_page` makes one.
pub struct Document {
    html: Html,
    text: Ghost<Seq<char>>,
}

impl Document {
    pub closed spec fn text(&self) -> Seq<char> {
        self.text@
    }
}

/// An element of a parsed page, with the page text and the selectors that
/// led to it. Its fields are private: only the lookups of this module make
/// one.
pub struct Element<'a> {
    node: ElementRef<'a>,
    page: Ghost<Seq<char>>,
    chain: Ghost<Seq<Seq<char>>>,
}

impl<'a> Element<'a> {
    pub closed spec fn page(&self) -> Seq<char> {
        self.page@
    }

    pub closed spec fn chain(&self) -> Seq<Seq<char>> {
        self.chain@
    }
}

/// Relies on scraper::Html::parse_document, which never fails.
#[verifier::external_body]
pub fn parse_page(page: &str) -> (r: Document)
    ensures
        r.text() == page@,
{
    Document { html: Html::parse_document(page), text: Ghost(page@) }
}

/// Relies on scraper::Selector::parse and Html::select: the first element of
/// the document that `selector` matches.
#[verifier::external_body]
fn first_match<'a>(doc: &'a Document, selector: &str) -> (r: Option<Element<'a>>)
    ensures
        r.is_some() == reaches(doc.text(), seq![selector@]),
        r matches Some(e) ==> e.page() == doc.text() && e.chain() == seq![selector@],
{
    let sel = match Selector::parse(selector) {
        Ok(sel) => sel,
        Err(_) => return None,
    };
    let found = doc.html.select(&sel).next()?;
    Some(Element { node: found, page: Ghost(doc.text@), chain: Ghost(seq![selector@]) })
}

/// Relies on scraper::Selector::parse and ElementRef::select: the first
/// descendant of `e` that `selector` matches.
#[verifier::external_body]
fn first_match_within<'a>(e: &Element<'a>, selector: &str) -> (r: Option<Element<'a>>)
    ensures
        r.is_some() == reaches(e.page(), e.chain().push(selector@)),
        r matches Some(f) ==> f.page() == e.page() && f.chain() == e.chain().push(selector@),
{
    let sel = match Selector::parse(selector) {
        Ok(sel) => sel,
        Err(_) => return None,
    };
    let found = e.node.select(&sel).next()?;
    Some(Element { node: found, page: Ghost(e.page@), chain: Ghost(e.chain@.push(selector@)) })
}

/// Relies on scraper::ElementRef::inner_html. Nothing is stated of the
/// result: scraper writes each element's attributes in the order of a
/// randomly seeded hash map, so two calls on one page may differ.
#[verifier::external_body]
fn inner_html(e: &Element) -> (r: String) {
    e.node.inner_html()
}

/// Relies on scraper's Element::attr: the value of the attribute `name`.
#[verifier::external_body]
fn attribute(e: &Element, name: &str) -> (r: Option<String>)
    ensures
        attr_at(e.page(), e.chain(), name@) == match r {
            Some(v) => Some(v@),
            None => None::<Seq<char>>,
        },
{
    e.node.value().attr(name).map(|v| v.to_string())
}

/// The block that holds the series title.
pub const TITLE_SELECTOR: &'static str = "div.story-info-right";

/// The title heading inside that block.
pub const HEADING_SELECTOR: &'static str = "h1";

/// The list of chapters, newest first.
pub const LIST_SELECTOR: &'static str = "ul.row-content-chapter";

/// An item of that list.
pub const ITEM_SELECTOR: &'static str = "li";

/// The link inside an item.
pub const LINK_SELECTOR: &'static str = "a";

/// The attribute that holds a link's target.
pub const HREF: &'static str = "href";

/// Text that the host's own "page not found" page shows.
pub const NOT_FOUND_MARKER: &'static str = "404 - PAGE NOT FOUND";

pub open spec fn title_chain() -> Seq<Seq<char>> {
    seq![TITLE_SELECTOR@]
}

pub open spec fn heading_chain() -> Seq<Seq<char>> {
    title_chain().push(HEADING_SELECTOR@)
}

pub open spec fn list_chain() -> Seq<Seq<char>> {
    seq![LIST_SELECTOR@]
}

pub open spec fn item_chain() -> Seq<Seq<char>> {
    list_chain().push(ITEM_SELECTOR@)
}

pub open spec fn link_chain() -> Seq<Seq<char>> {
    item_chain().push(LINK_SELECTOR@)
}

/// Position of the last `'-'` of `s`, or `-1` when there is none.
pub open spec fn last_dash(s: Seq<char>) -> int
    decreases s.len(),
{
    if s.len() == 0 {
        -1
    } else if s.last() == '-' {
        s.len() - 1
    } else {
        last_dash(s.drop_last())
    }
}

/// What follows the last `'-'` of `s`; all of `s` when it has none.
pub open spec fn last_segment(s: Seq<char>) -> Seq<char> {
    s.skip(last_dash(s) + 1)
}

/// The chapter number that a chapter link ends with, in thousandths; one
/// whole chapter when its last segment is not a number.
pub open spec fn link_number(link: Seq<char>) -> int {
    match number_of_text(last_segment(link)) {
        Some(v) => v,
        None => 1000,
    }
}

/// The target of the link to the latest chapter that the page `page`
/// shows, or why it cannot be read.
pub open spec fn extracted(page: Seq<char>) -> Result<Seq<char>, ExtractionError> {
    if !reaches(page, title_chain()) {
        Err(ExtractionError::TitleContainerMissing)
    } else if !reaches(page, heading_chain()) {
        Err(ExtractionError::TitleUnparseable)
    } else if !reaches(page, list_chain()) {
        Err(ExtractionError::ChapterListAbsent)
    } else if !reaches(page, item_chain()) {
        Err(ExtractionError::ChapterListEmpty)
    } else if !reaches(page, link_chain()) || attr_at(page, link_chain(), HREF@) is None {
        Err(ExtractionError::ChapterLinkUnreachable)
    } else {
        Ok(attr_at(page, link_chain(), HREF@)->0)
    }
}

proof fn lemma_last_dash_step(s: Seq<char>, j: int)
    requires
        0 <= j < s.len(),
        s[j] != '-',
    ensures
        last_dash(s.take(j + 1)) == last_dash(s.take(j)),
{
    assert(s.take(j + 1).drop_last() =~= s.take(j));
}

/// What follows the last `'-'` of `link`.
fn segment_after_last_dash(link: &str) -> (r: &str)
    ensures
        r@ == last_segment(link@),
{
    let n = link.unicode_len();
    let mut j: usize = n;
    assert(link@.take(n as int) =~= link@);
    while j > 0 && link.get_char(j - 1) != '-'
        invariant
            j <= n,
            n == link@.len(),
            last_dash(link@) == last_dash(link@.take(j as int)),
        decreases j,
    {
        proof {
            lemma_last_dash_step(link@, j - 1);
        }
        j = j - 1;
    }
    if j > 0 {
        assert(link@.take(j as int).drop_last() =~= link@.take(j as int - 1));
    } else {
        assert(link@.take(0) =~= Seq::<char>::empty());
    }
    link.substring_char(j, n)
}

/// The chapter number that a chapter link ends with (`.../chapter-74` is
/// chapter 74); chapter 1 when the end of the link is not a number.
pub fn chapter_number_from_link(link: &str) -> (r: ChapterNumber)
    ensures
        r.value() == link_number(link@),
{
    match parse_chapter_number(segment_after_last_dash(link)) {
        Some(n) => n,
        None => ChapterNumber::whole(1),
    }
}

/// Follows the chapter list, its first item and that item's first link.
pub fn browse_fragment<'a>(
    fragment: &'a Document,
    list_sel: &str,
    item_sel: &str,
    link_sel: &str,
) -> (r: Result<Element<'a>, ExtractionError>)
    ensures
        ({
            let page = fragment.text();
            let l = seq![list_sel@];
            let i = l.push(item_sel@);
            let a = i.push(link_sel@);
            &&& (r == Err::<Element, _>(ExtractionError::ChapterListAbsent)) == !reaches(page, l)
            &&& (r == Err::<Element, _>(ExtractionError::ChapterListEmpty)) == (reaches(page, l)
                && !reaches(page, i))
            &&& (r == Err::<Element, _>(ExtractionError::ChapterLinkUnreachable)) == (reaches(
                page,
                l,
            ) && reaches(page, i) && !reaches(page, a))
            &&& r is Ok == (reaches(page, l) && reaches(page, i) && reaches(page, a))
            &&& r matches Ok(e) ==> e.page() == page && e.chain() == a
        }),
{
    let list = match first_match(fragment, list_sel) {
        Some(e) => e,
        None => {
            return Err(ExtractionError::ChapterListAbsent);
        },
    };
    let item = match first_match_within(&list, item_sel) {
        Some(e) => e,
        None => {
            return Err(ExtractionError::ChapterListEmpty);
        },
    };
    match first_match_within(&item, link_sel) {
        Some(e) => Ok(e),
        None => Err(ExtractionError::ChapterLinkUnreachable),
    }
}

/// The link to the latest chapter of a parsed series page.
pub fn extract_last_chapter_elt_ref<'a>(fragment: &'a Document) -> (r: Result<
    Element<'a>,
    ExtractionError,
>)
    ensures
        ({
            let page = fragment.text();
            &&& (r == Err::<Element, _>(ExtractionError::ChapterListAbsent)) == !reaches(
                page,
                list_chain(),
            )
            &&& (r == Err::<Element, _>(ExtractionError::ChapterListEmpty)) == (reaches(
                page,
                list_chain(),
            ) && !reaches(page, item_chain()))
            &&& (r == Err::<Element, _>(ExtractionError::ChapterLinkUnreachable)) == (reaches(
                page,
                list_chain(),
            ) && reaches(page, item_chain()) && !reaches(page, link_chain()))
            &&& r is Ok == (reaches(page, list_chain()) && reaches(page, item_chain()) && reaches(
                page,
                link_chain(),
            ))
            &&& r matches Ok(e) ==> e.page() == page && e.chain() == link_chain()
        }),
{
    browse_fragment(fragment, LIST_SELECTOR, ITEM_SELECTOR, LINK_SELECTOR)
}

/// The chapter read from a series page: the title heading's inner HTML,
/// the chapter link's inner HTML and its target, and the number at the end
/// of that target.
pub fn assemble_chapter(manga_title: String, chapter_title: String, link: String) -> (r:
    MangaChapter)
    ensures
        r@ == (ChapterView {
            manga_title: manga_title@,
            url: link@,
            chapter_title: chapter_title@,
            num: link_number(link@),
        }),
{
    let num = chapter_number_from_link(link.as_str());
    MangaChapter { manga_title, url: link, chapter_title, num }
}

/// Reads from the page of the series at `url` its title and its latest
/// chapter: the first link of the chapter list, its text, its target taken
/// as it stands, and the number at the end of that target. The two texts
/// are the inner HTML that scraper writes for the title heading and for the
/// link, handed to `assemble_chapter`.
pub fn scrape_page_for_last_chapter(page: &str, url: &str) -> (r: Result<MangaChapter, ScraperError>)
    ensures
        match r {
            Ok(c) => extracted(page@) == Ok::<Seq<char>, ExtractionError>(c.url@)
                && c.num.value() == link_number(c.url@),
            Err(e) => e.url@ == url@ && extracted(page@) is Err && e.cause
                == FailureCause::Extraction(extracted(page@)->Err_0),
        },
{
    let doc = parse_page(page);
    let fail = |kind: ExtractionError| -> (e: ScraperError)
        ensures
            e.url@ == url@ && e.cause == FailureCause::Extraction(kind),
        { ScraperError { url: url.to_string(), cause: FailureCause::Extraction(kind) } };
    let container = match first_match(&doc, TITLE_SELECTOR) {
        Some(e) => e,
        None => {
            return Err(fail(ExtractionError::TitleContainerMissing));
        },
    };
    let heading = match first_match_within(&container, HEADING_SELECTOR) {
        Some(e) => e,
        None => {
            return Err(fail(ExtractionError::TitleUnparseable));
        },
    };
    let manga_title = inner_html(&heading);
    let link = match extract_last_chapter_elt_ref(&doc) {
        Ok(e) => e,
        Err(kind) => {
            return Err(fail(kind));
        },
    };
    let chapter_title = inner_html(&link);
    let target = match attribute(&link, HREF) {
        Some(t) => t,
        None => {
            return Err(fail(ExtractionError::ChapterLinkUnreachable));
        },
    };
    Ok(assemble_chapter(manga_title, chapter_title, target))
}

/// On a page laid out as expected, extraction gives the first chapter
/// item's link: its target as it stands and the number at the end of that
/// target; on a page whose title reads but that has no chapter list at all,
/// it fails with `ChapterListAbsent`.
pub proof fn lemma_extract_layout(page: Seq<char>)
    ensures
        reaches(page, title_chain()) && reaches(page, heading_chain()) && reaches(
            page,
            list_chain(),
        ) && reaches(page, item_chain()) && reaches(page, link_chain()) && attr_at(
            page,
            link_chain(),
            HREF@,
        ) is Some ==> extracted(page) == Ok::<Seq<char>, ExtractionError>(
            attr_at(page, link_chain(), HREF@)->0,
        ),
        reaches(page, title_chain()) && reaches(page, heading_chain()) && !reaches(
            page,
            list_chain(),
        ) ==> extracted(page) == Err::<Seq<char>, _>(ExtractionError::ChapterListAbsent),
{
}

/// What the batch keeps of a resolved chapter: its link and its number.
pub type ChapterKey = (Seq<char>, int);

/// The outcome of resolving the latest chapter of `url` from the result of
/// fetching its page (the page text, or the transport's message): the
/// chapter link and its number, or the URL with the extraction failure
/// (`None` for a fetch failure).
pub open spec fn resolved(url: Seq<char>, download: Result<Seq<char>, Seq<char>>) -> Result<
    ChapterKey,
    (Seq<char>, Option<ExtractionError>),
> {
    match download {
        Err(message) => Err((url, None)),
        Ok(page) => match extracted(page) {
            Ok(link) => Ok((link, link_number(link))),
            Err(kind) => Err((url, Some(kind))),
        },
    }
}

/// The view of a fetch result.
pub open spec fn download_view(d: Result<String, String>) -> Result<Seq<char>, Seq<char>> {
    match d {
        Ok(p) => Ok(p@),
        Err(m) => Err(m@),
    }
}

/// The view of a resolution outcome: the chapter, or the URL with the
/// extraction failure (`None` for a fetch failure).
pub open spec fn outcome_view(r: Result<MangaChapter, ScraperError>) -> Result<
    ChapterKey,
    (Seq<char>, Option<ExtractionError>),
> {
    match r {
        Ok(c) => Ok((c.url@, c.num.value())),
        Err(e) => Err(
            (
                e.url@,
                match e.cause {
                    FailureCause::Network(_) => None,
                    FailureCause::Extraction(k) => Some(k),
                },
            ),
        ),
    }
}

/// Resolves the latest chapter of `url` from the result of fetching its
/// page: a fetch failure and an extraction failure both come back as a
/// `ScraperError` for that URL.
pub fn find_last_chapter(url: &str, download: Result<String, String>) -> (r: Result<
    MangaChapter,
    ScraperError,
>)
    ensures
        outcome_view(r) == resolved(url@, download_view(download)),
        download matches Err(m) ==> r matches Err(e) && e.cause == FailureCause::Network(m),
{
    match download {
        Ok(page) => scrape_page_for_last_chapter(page.as_str(), url),
        Err(message) => Err(ScraperError { url: url.to_string(), cause: FailureCause::Network(message) }),
    }
}

/// Whether the page fetched for `url` is the host's own "page not found"
/// page; a fetch failure comes back as a `ScraperError` for that URL.
pub fn is_page_not_found(url: &str, download: Result<String, String>) -> (r: Result<bool, ScraperError>)
    ensures
        download matches Ok(page) ==> r == Ok::<bool, ScraperError>(
            occurs_in(page@, NOT_FOUND_MARKER@),
        ),
        download matches Err(m) ==> r matches Err(e) && e.url@ == url@ && e.cause
            == FailureCause::Network(m),
{
    match download {
        Ok(page) => Ok(contains_text(page.as_str(), NOT_FOUND_MARKER)),
        Err(message) => Err(ScraperError { url: url.to_string(), cause: FailureCause::Network(message) }),
    }
}

} // verus!

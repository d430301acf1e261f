use manga_updater::chapter::ChapterNumber;
use manga_updater::models::{ExtractionError, FailureCause};
use manga_updater::page::{
    browse_fragment, chapter_number_from_link, extract_last_chapter_elt_ref, find_last_chapter,
    is_page_not_found, parse_page, scrape_page_for_last_chapter,
};

const SERIES_PAGE: &str = r#"<!DOCTYPE html>
<html><head><title>Series</title></head><body>
<div class="story-info-left"><h1>Not this one</h1></div>
<div class="story-info-right"><h1>Mushoku Tensei - Isekai Ittara Honki Dasu</h1></div>
<div class="panel-story-chapter-list">
<ul class="row-content-chapter">
<li class="a-h"><a class="chapter-name" href="https://readmanganato.com/manga-qm951521/chapter-74">Chapter 74</a></li>
<li class="a-h"><a class="chapter-name" href="https://readmanganato.com/manga-qm951521/chapter-73">Chapter 73</a></li>
</ul></div></body></html>"#;

fn page_with(list: &str) -> String {
    format!(
        "<html><body><div class=\"story-info-right\"><h1>Title</h1></div>{}</body></html>",
        list
    )
}

#[test]
fn scrape_page_for_last_chapter_test() {
    match scrape_page_for_last_chapter(SERIES_PAGE, "Original title") {
        Ok(chapter) => {
            assert_eq!(
                chapter.url,
                "https://readmanganato.com/manga-qm951521/chapter-74"
            );
            assert_eq!(chapter.chapter_title, "Chapter 74");
            assert_eq!(
                chapter.manga_title,
                "Mushoku Tensei - Isekai Ittara Honki Dasu"
            );
            assert_eq!(chapter.num, ChapterNumber::whole(74));
        }
        Err(_) => panic!("Cannot extract chapter"),
    }
}

#[test]
fn with_a_wrong_site_throws_error() {
    let page = "<html><body><p>Nothing to see here</p></body></html>";
    if scrape_page_for_last_chapter(page, "Original title").is_ok() {
        panic!("The method should not return a value in this case");
    }
}

#[test]
fn missing_title_container_is_reported_with_the_url() {
    let page = "<html><body><ul class=\"row-content-chapter\"><li><a href=\"x-1\">1</a></li></ul></body></html>";
    let err = scrape_page_for_last_chapter(page, "https://site/a").unwrap_err();
    assert_eq!(err.url, "https://site/a");
    assert!(matches!(
        err.cause,
        FailureCause::Extraction(ExtractionError::TitleContainerMissing)
    ));
    assert!(err.reason().contains("https://site/a"));
}

#[test]
fn title_container_without_heading_is_unparseable() {
    let page = "<html><body><div class=\"story-info-right\"><h2>T</h2></div></body></html>";
    let err = scrape_page_for_last_chapter(page, "u").unwrap_err();
    assert!(matches!(
        err.cause,
        FailureCause::Extraction(ExtractionError::TitleUnparseable)
    ));
}

#[test]
fn page_without_chapter_list_fails_with_list_absent() {
    let err = scrape_page_for_last_chapter(&page_with("<p>no list</p>"), "u").unwrap_err();
    assert!(matches!(
        err.cause,
        FailureCause::Extraction(ExtractionError::ChapterListAbsent)
    ));
}

#[test]
fn empty_chapter_list_fails_with_list_empty() {
    let page = page_with("<ul class=\"row-content-chapter\"></ul>");
    let err = scrape_page_for_last_chapter(&page, "u").unwrap_err();
    assert!(matches!(
        err.cause,
        FailureCause::Extraction(ExtractionError::ChapterListEmpty)
    ));
}

#[test]
fn item_without_link_fails_with_link_unreachable() {
    let page = page_with("<ul class=\"row-content-chapter\"><li><span>soon</span></li></ul>");
    let err = scrape_page_for_last_chapter(&page, "u").unwrap_err();
    assert!(matches!(
        err.cause,
        FailureCause::Extraction(ExtractionError::ChapterLinkUnreachable)
    ));
}

#[test]
fn link_without_target_fails_with_link_unreachable() {
    let page = page_with("<ul class=\"row-content-chapter\"><li><a>Chapter 3</a></li></ul>");
    let err = scrape_page_for_last_chapter(&page, "u").unwrap_err();
    assert!(matches!(
        err.cause,
        FailureCause::Extraction(ExtractionError::ChapterLinkUnreachable)
    ));
}

#[test]
fn fractional_and_unparseable_chapter_numbers() {
    let page = page_with(
        "<ul class=\"row-content-chapter\"><li><a href=\"/m/chapter-74.5\">Chapter <b>74.5</b></a></li></ul>",
    );
    let chapter = scrape_page_for_last_chapter(&page, "u").unwrap();
    assert_eq!(chapter.num, ChapterNumber { milli: 74500 });
    assert_eq!(chapter.url, "/m/chapter-74.5");
    assert_eq!(chapter.chapter_title, "Chapter <b>74.5</b>");
    let page = page_with(
        "<ul class=\"row-content-chapter\"><li><a href=\"/m/chapter-extra\">Extra</a></li></ul>",
    );
    let chapter = scrape_page_for_last_chapter(&page, "u").unwrap();
    assert_eq!(chapter.num, ChapterNumber::whole(1));
}

#[test]
fn chapter_number_comes_from_the_link_tail() {
    assert_eq!(chapter_number_from_link("https://x/y/chapter-12"), ChapterNumber::whole(12));
    assert_eq!(chapter_number_from_link("123"), ChapterNumber::whole(123));
    assert_eq!(chapter_number_from_link("a-b-0.25"), ChapterNumber { milli: 250 });
    assert_eq!(chapter_number_from_link("ends-with-"), ChapterNumber::whole(1));
    assert_eq!(chapter_number_from_link(""), ChapterNumber::whole(1));
}

#[test]
fn browsing_follows_list_item_and_link() {
    let doc = parse_page(SERIES_PAGE);
    assert!(browse_fragment(&doc, "ul.row-content-chapter", "li", "a").is_ok());
    assert_eq!(
        browse_fragment(&doc, "ol.none", "li", "a").err(),
        Some(ExtractionError::ChapterListAbsent)
    );
    assert_eq!(
        browse_fragment(&doc, "ul.row-content-chapter", "dd", "a").err(),
        Some(ExtractionError::ChapterListEmpty)
    );
    assert_eq!(
        browse_fragment(&doc, "ul.row-content-chapter", "li", "img").err(),
        Some(ExtractionError::ChapterLinkUnreachable)
    );
    assert!(extract_last_chapter_elt_ref(&doc).is_ok());
}

#[test]
fn fetch_failures_become_network_errors() {
    let err = find_last_chapter("https://gone", Err("connection refused".to_string())).unwrap_err();
    assert_eq!(err.url, "https://gone");
    match err.cause {
        FailureCause::Network(m) => assert_eq!(m, "connection refused"),
        _ => panic!("expected a network failure"),
    }
    let ok = find_last_chapter("u", Ok(SERIES_PAGE.to_string())).unwrap();
    assert_eq!(ok.num, ChapterNumber::whole(74));
}

#[test]
fn not_found_page_is_detected_by_its_marker() {
    let gone = "<html><body><h1>404 - PAGE NOT FOUND</h1></body></html>".to_string();
    assert_eq!(is_page_not_found("u", Ok(gone)).ok(), Some(true));
    assert_eq!(is_page_not_found("u", Ok(SERIES_PAGE.to_string())).ok(), Some(false));
    assert!(is_page_not_found("u", Err("timeout".to_string())).is_err());
}

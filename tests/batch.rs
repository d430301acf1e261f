use manga_updater::batch::{
    apply_batch, line_index, parse_usize, resolve_all, search_update, select_lines, update_one,
};
use manga_updater::chapter::ChapterNumber;
use manga_updater::models::{CSVLine, FailureCause, LineChapter, MangaChapter};

fn line(url: &str, milli: i64, title: &str) -> CSVLine {
    CSVLine {
        url: url.to_owned(),
        last_chapter_num: ChapterNumber { milli },
        title: title.to_owned(),
    }
}

fn page(title: &str, chapter: u32) -> String {
    format!(
        "<html><body><div class=\"story-info-right\"><h1>{}</h1></div><ul class=\"row-content-chapter\"><li><a href=\"/s/chapter-{}\">Chapter {}</a></li></ul></body></html>",
        title, chapter, chapter
    )
}

#[test]
fn batch_with_unreachable_pages_keeps_every_entry() {
    let entries = vec![
        line("a", 1000, "A"),
        line("b", 2000, "B"),
        line("c", 3000, "C"),
        line("d", 4000, "D"),
    ];
    let downloads = vec![
        Ok(page("A", 5)),
        Err("timeout".to_string()),
        Ok(page("C", 3)),
        Err("refused".to_string()),
    ];
    let report = resolve_all(&entries, downloads);
    assert_eq!(report.resolved.len(), 2);
    assert_eq!(report.failed.len(), 2);
    assert_eq!(report.resolved[0].line, entries[0]);
    assert_eq!(report.resolved[0].chapter.num, ChapterNumber::whole(5));
    assert_eq!(report.resolved[1].line, entries[2]);
    assert_eq!(report.failed[0].url, "b");
    assert_eq!(report.failed[1].url, "d");
    assert!(matches!(report.failed[0].cause, FailureCause::Network(_)));
    let updated = apply_batch(entries.clone(), &report);
    assert_eq!(
        updated,
        vec![
            line("a", 5000, "A"),
            line("b", 2000, "B"),
            line("c", 3000, "C"),
            line("d", 4000, "D"),
        ]
    );
}

#[test]
fn batch_counts_layout_failures_too() {
    let entries = vec![line("a", 1000, "A"), line("b", 1000, "B")];
    let downloads = vec![Ok("<html></html>".to_string()), Ok(page("B", 9))];
    let report = resolve_all(&entries, downloads);
    assert_eq!(report.resolved.len(), 1);
    assert_eq!(report.failed.len(), 1);
    assert_eq!(report.failed[0].url, "a");
}

#[test]
fn empty_batch_gives_nothing() {
    let report = resolve_all(&Vec::new(), Vec::new());
    assert!(report.resolved.is_empty());
    assert!(report.failed.is_empty());
}

#[test]
fn selection_by_line_numbers_drops_bad_positions() {
    let lines = vec![line("a", 1000, "A"), line("b", 2000, "B"), line("c", 3000, "C")];
    let picked = select_lines("3 1 x 0 4  2", &lines);
    assert_eq!(picked, vec![line("c", 3000, "C"), line("a", 1000, "A"), line("b", 2000, "B")]);
    assert!(select_lines("", &lines).is_empty());
    assert_eq!(select_lines("+2", &lines), vec![line("b", 2000, "B")]);
    assert!(select_lines("99999999999999999999999", &lines).is_empty());
}

#[test]
fn line_numbers_count_from_one() {
    assert_eq!(line_index("1", 3), Some(0));
    assert_eq!(line_index("3", 3), Some(2));
    assert_eq!(line_index("4", 3), None);
    assert_eq!(line_index("0", 3), None);
    assert_eq!(line_index("-1", 3), None);
    assert_eq!(line_index("", 3), None);
    assert_eq!(line_index("007", 10), Some(6));
    assert_eq!(line_index("+3", 3), Some(2));
    assert_eq!(line_index("+", 3), None);
    assert_eq!(line_index("++3", 3), None);
    assert_eq!(parse_usize("18446744073709551615"), Some(usize::MAX));
    assert_eq!(parse_usize("18446744073709551616"), None);
}

#[test]
fn refreshed_entry_takes_number_and_title_from_the_page() {
    let l = line("a", 1000, "old");
    let c = MangaChapter {
        manga_title: "New title".to_string(),
        url: "a/chapter-2".to_string(),
        chapter_title: "Chapter 2".to_string(),
        num: ChapterNumber::whole(2),
    };
    assert_eq!(search_update(&l, &c), line("a", 2000, "New title"));
}

#[test]
fn single_update_is_skipped_when_up_to_date() {
    let lines = vec![line("a", 1000, "A"), line("b", 2000, "B")];
    let same = LineChapter {
        line: line("b", 2000, "B"),
        chapter: MangaChapter {
            manga_title: "B".to_string(),
            url: "b/chapter-2".to_string(),
            chapter_title: "Chapter 2".to_string(),
            num: ChapterNumber::whole(2),
        },
    };
    assert!(update_one(lines.clone(), &same).is_none());
    let newer = LineChapter {
        line: line("b", 2000, "B"),
        chapter: MangaChapter {
            manga_title: "B".to_string(),
            url: "b/chapter-3".to_string(),
            chapter_title: "Chapter 3".to_string(),
            num: ChapterNumber::whole(3),
        },
    };
    assert_eq!(
        update_one(lines, &newer),
        Some(vec![line("a", 1000, "A"), line("b", 3000, "B")])
    );
}

use manga_updater::chapter::ChapterNumber;
use manga_updater::batch::resolve_all;
use manga_updater::commands::{
    add_new_manga, apply_update, display_lines, import_file, lines_to_update, locate_line,
    read_urls, remove_manga, unread_chapter, UpdateOutcome,
};
use manga_updater::models::{CSVLine, LineChapter, MangaChapter};

fn line(url: &str, milli: i64, title: &str) -> CSVLine {
    CSVLine {
        url: url.to_owned(),
        last_chapter_num: ChapterNumber { milli },
        title: title.to_owned(),
    }
}

fn chapter(num: i32) -> MangaChapter {
    MangaChapter {
        manga_title: "S".to_string(),
        url: format!("s/chapter-{}", num),
        chapter_title: format!("Chapter {}", num),
        num: ChapterNumber::whole(num),
    }
}

#[test]
fn entries_are_named_by_number_or_url() {
    let lines = vec![line("a", 1000, "A"), line("b", 2000, "B"), line("b", 3000, "B2")];
    assert_eq!(locate_line(&lines, "2"), Some(1));
    assert_eq!(locate_line(&lines, "4"), None);
    assert_eq!(locate_line(&lines, "b"), Some(1));
    assert_eq!(locate_line(&lines, "zz"), None);
    assert_eq!(locate_line(&lines, "+3"), Some(2));
}

#[test]
fn removal_by_number_or_by_url() {
    let lines = vec![line("a", 1000, "A"), line("b", 2000, "B"), line("b", 3000, "B2")];
    assert_eq!(remove_manga(lines.clone(), "1"), vec![line("b", 2000, "B"), line("b", 3000, "B2")]);
    assert_eq!(remove_manga(lines.clone(), "b"), vec![line("a", 1000, "A")]);
    assert_eq!(remove_manga(lines.clone(), "9"), lines);
    assert_eq!(remove_manga(lines.clone(), "+1"), vec![line("b", 2000, "B"), line("b", 3000, "B2")]);
}

#[test]
fn unread_by_line_number() {
    let lines = vec![line("a", 1000, "A"), line("b", 2000, "B")];
    assert_eq!(unread_chapter(&lines, "2"), Some(vec![line("a", 1000, "A"), line("b", 1000, "B")]));
    assert_eq!(unread_chapter(&lines, "0"), None);
    assert_eq!(unread_chapter(&lines, "x"), None);
    assert_eq!(unread_chapter(&vec![line("m", i64::MIN, "M")], "1"), None);
}

#[test]
fn update_targets() {
    let lines = vec![line("a", 1000, "A"), line("b", 2000, "B")];
    assert_eq!(lines_to_update("all", &lines), lines);
    assert_eq!(lines_to_update("2", &lines), vec![line("b", 2000, "B")]);
    assert_eq!(lines_to_update("2 1", &lines), vec![line("b", 2000, "B"), line("a", 1000, "A")]);
}

#[test]
fn adding_appends_the_resolved_chapter() {
    let lines = vec![line("a", 1000, "A")];
    assert_eq!(
        add_new_manga(lines, "s", &chapter(12)),
        vec![line("a", 1000, "A"), line("s", 12000, "S")]
    );
}

#[test]
fn listing_shows_updates_first_of_all() {
    let chapters = vec![
        LineChapter { line: line("a", 1000, "A"), chapter: chapter(2) },
        LineChapter { line: line("b", 5000, "B"), chapter: chapter(5) },
    ];
    let all = display_lines(&chapters, false);
    assert_eq!(all.shown, vec![0, 1]);
    assert!(all.has_new);
    let only_new = display_lines(&chapters, true);
    assert_eq!(only_new.shown, vec![0]);
    let later = vec![LineChapter { line: line("b", 5000, "B"), chapter: chapter(5) }];
    let none = display_lines(&later, true);
    assert!(none.shown.is_empty());
    assert!(!none.has_new);
}

#[test]
fn url_lists_lose_carriage_returns() {
    assert_eq!(read_urls("a\r\nb\r\n"), "a\nb\n");
}

fn page(chapter: u32) -> String {
    format!(
        "<html><body><div class=\"story-info-right\"><h1>S</h1></div><ul class=\"row-content-chapter\"><li><a href=\"/s/chapter-{}\">Chapter {}</a></li></ul></body></html>",
        chapter, chapter
    )
}

#[test]
fn single_update_up_to_date_writes_nothing() {
    let lines = vec![line("a", 1000, "A"), line("b", 2000, "B")];
    let selected = lines_to_update("2", &lines);
    let report = resolve_all(&selected, vec![Ok(page(2))]);
    assert!(matches!(apply_update("2", lines.clone(), &report), UpdateOutcome::UpToDate));
    let report = resolve_all(&selected, vec![Ok(page(3))]);
    match apply_update("2", lines.clone(), &report) {
        UpdateOutcome::Write(v) => assert_eq!(v, vec![line("a", 1000, "A"), line("b", 3000, "S")]),
        other => panic!("unexpected {:?}", other),
    }
    let report = resolve_all(&selected, vec![Err("down".to_string())]);
    assert!(matches!(apply_update("2", lines, &report), UpdateOutcome::NothingResolved));
}

#[test]
fn batch_update_keeps_failed_entries() {
    let lines = vec![line("a", 1000, "A"), line("b", 2000, "B")];
    let selected = lines_to_update("all", &lines);
    let report = resolve_all(&selected, vec![Ok(page(4)), Err("down".to_string())]);
    match apply_update("all", lines, &report) {
        UpdateOutcome::Write(v) => assert_eq!(v, vec![line("a", 4000, "S"), line("b", 2000, "B")]),
        other => panic!("unexpected {:?}", other),
    }
}

#[test]
fn import_overwrites_or_merges() {
    let current = vec![line("a", 1000, "A")];
    let imported = vec![line("a", 9000, "A"), line("c", 5000, "C")];
    assert_eq!(import_file(imported.clone(), current.clone(), true), imported);
    assert_eq!(
        import_file(imported, current, false),
        vec![line("a", 1000, "A"), line("c", 5000, "C")]
    );
}

#[test]
fn list_update_with_nothing_resolved_writes_the_set_unchanged() {
    let lines = vec![line("a", 1000, "A"), line("b", 2000, "B")];
    let selected = lines_to_update("x 9", &lines);
    assert!(selected.is_empty());
    let report = resolve_all(&selected, Vec::new());
    match apply_update("x 9", lines.clone(), &report) {
        UpdateOutcome::Write(v) => assert_eq!(v, lines),
        other => panic!("unexpected {:?}", other),
    }
}

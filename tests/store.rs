use manga_updater::chapter::{format_chapter_number, parse_chapter_number, ChapterNumber};
use manga_updater::models::CSVLine;
use manga_updater::paths::{backup_file, export, export_file, restore_file, undo, PathError};
use manga_updater::store::{
    create_file, is_url_present, parse_rows, read_csv, store_rows_of, update_csv,
    StoreFormatError,
};

fn line(url: &str, milli: i64, title: &str) -> CSVLine {
    CSVLine {
        url: url.to_owned(),
        last_chapter_num: ChapterNumber { milli },
        title: title.to_owned(),
    }
}

#[test]
fn store_text_reads_back_as_written() {
    let lines = vec![line("url1", 0, "title"), line("https://a/b,c", 74500, "Quoted \"one\"")];
    let text = update_csv(&lines).unwrap();
    assert!(text.starts_with("URL,Last chapter,Title"));
    assert!(text.contains("url1,0,title"));
    assert_eq!(read_csv(&text).unwrap(), lines);
}

#[test]
fn store_with_wrong_header_is_refused() {
    assert_eq!(read_csv("URL,Last chapter\nu,1\n").err(), Some(StoreFormatError::HeaderMismatch));
    assert_eq!(read_csv("Title,URL,Last chapter\n").err(), Some(StoreFormatError::HeaderMismatch));
    assert_eq!(read_csv("").err(), Some(StoreFormatError::HeaderMismatch));
    assert_eq!(
        read_csv("URL,Last chapter,Title,Extra\nu,1,T,x\n").err(),
        Some(StoreFormatError::HeaderMismatch)
    );
}

#[test]
fn store_with_bad_row_is_refused() {
    assert_eq!(
        read_csv("URL,Last chapter,Title\nu,one,T\n").err(),
        Some(StoreFormatError::MalformedRow)
    );
    assert_eq!(
        read_csv("URL,Last chapter,Title\nu,1,T,extra\n").err(),
        Some(StoreFormatError::Unreadable)
    );
}

#[test]
fn empty_store_has_no_entries() {
    assert_eq!(read_csv("URL,Last chapter,Title\n").unwrap(), Vec::new());
}

#[test]
fn url_presence_is_a_text_search() {
    let text = "URL,Last chapter,Title\nurl1,0,title\n";
    assert!(is_url_present(text, "url1"));
    assert!(!is_url_present(text, "url2"));
}

#[test]
fn chapter_numbers_read_and_print() {
    assert_eq!(parse_chapter_number("74"), Some(ChapterNumber::whole(74)));
    assert_eq!(parse_chapter_number("74.5"), Some(ChapterNumber { milli: 74500 }));
    assert_eq!(parse_chapter_number("-2.25"), Some(ChapterNumber { milli: -2250 }));
    assert_eq!(parse_chapter_number("+3"), Some(ChapterNumber::whole(3)));
    assert_eq!(parse_chapter_number(".5"), Some(ChapterNumber { milli: 500 }));
    assert_eq!(parse_chapter_number("5."), Some(ChapterNumber::whole(5)));
    assert_eq!(parse_chapter_number("1.23456"), Some(ChapterNumber { milli: 1234 }));
    assert_eq!(parse_chapter_number("9223372036854775.807"), Some(ChapterNumber { milli: i64::MAX }));
    assert_eq!(parse_chapter_number("9223372036854775.808"), None);
    assert_eq!(parse_chapter_number("-9223372036854775.808"), Some(ChapterNumber { milli: i64::MIN }));
    assert_eq!(parse_chapter_number("9223372036854776"), None);
    assert_eq!(parse_chapter_number("99999999999999999999999"), None);
    assert_eq!(parse_chapter_number(""), None);
    assert_eq!(parse_chapter_number("."), None);
    assert_eq!(parse_chapter_number("-"), None);
    assert_eq!(parse_chapter_number("1e3"), None);
    assert_eq!(parse_chapter_number("chapter"), None);
    assert_eq!(format_chapter_number(ChapterNumber::whole(74)), "74");
    assert_eq!(format_chapter_number(ChapterNumber { milli: 74500 }), "74.5");
    assert_eq!(format_chapter_number(ChapterNumber { milli: -250 }), "-0.25");
    assert_eq!(format_chapter_number(ChapterNumber { milli: 1005 }), "1.005");
    assert_eq!(format_chapter_number(ChapterNumber { milli: i64::MIN }), "-9223372036854775.808");
}

#[test]
fn snapshot_paths() {
    let copy = backup_file("dir/mangas.csv");
    assert_eq!(copy.from, "dir/mangas.csv");
    assert_eq!(copy.to, "dir/mangas.csv.bak");
    let restore = restore_file("dir/mangas.csv.bak").unwrap();
    assert_eq!(restore.from, "dir/mangas.csv.bak");
    assert_eq!(restore.to, "dir/mangas.csv");
    assert_eq!(restore_file("dir/mangas.bak").err(), Some(PathError::NotABackup));
    assert_eq!(undo(".bak").err(), Some(PathError::NotABackup));
    assert_eq!(undo(".csv.bak").unwrap().to, ".csv");
}

#[test]
fn export_paths() {
    assert_eq!(export_file("mangas.csv", "testDir").to, "testDir/mangas.csv");
    assert_eq!(export_file("mangas.csv", "testDir/").to, "testDir/mangas.csv");
    assert_eq!(export_file("mangas.csv", "").to, "mangas.csv");
    assert_eq!(export("s.csv", None).err(), Some(PathError::NoExportTarget));
    let copy = export("s.csv", Some("out")).unwrap();
    assert_eq!(copy.from, "s.csv");
    assert_eq!(copy.to, "out/mangas.csv");
}

#[test]
fn rows_give_entries_and_entries_give_rows() {
    let row = |a: &str, b: &str, c: &str| vec![a.to_string(), b.to_string(), c.to_string()];
    let rows = vec![row("URL", "Last chapter", "Title"), row("u", "3.5", "T")];
    assert_eq!(parse_rows(&rows).unwrap(), vec![line("u", 3500, "T")]);
    assert_eq!(store_rows_of(&vec![line("u", 3500, "T")]), rows);
    let bad = vec![row("URL", "Chapter", "Title")];
    assert_eq!(parse_rows(&bad).err(), Some(StoreFormatError::HeaderMismatch));
    let short = vec![row("URL", "Last chapter", "Title"), vec!["u".to_string()]];
    assert_eq!(parse_rows(&short).err(), Some(StoreFormatError::MalformedRow));
}

#[test]
fn extreme_chapter_numbers_read_back_from_the_store() {
    let lines = vec![line("low", i64::MIN, "L"), line("high", i64::MAX, "H"), line("mid", -1, "M")];
    let text = update_csv(&lines).unwrap();
    assert_eq!(read_csv(&text).unwrap(), lines);
    assert!(create_file().unwrap().starts_with("URL,Last chapter,Title"));
}

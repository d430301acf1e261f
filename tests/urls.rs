use manga_updater::chapter::ChapterNumber;
use manga_updater::models::{CSVLine, FailureCause, ScraperError};
use manga_updater::urls::{ask_user_new_url, create_new_url, find_new_url, plan_repair, with_url, Repair};

fn line(url: &str) -> CSVLine {
    CSVLine {
        url: url.to_owned(),
        last_chapter_num: ChapterNumber::whole(7),
        title: "T".to_owned(),
    }
}

#[test]
fn current_domain_gets_the_mirror_prefix() {
    assert_eq!(
        create_new_url("https://manganato.com/manga-x"),
        Some("https://readmanganato.com/manga-x".to_string())
    );
    assert_eq!(
        create_new_url("manganato.com/manga-x"),
        Some("https://readmanganato.com/manga-x".to_string())
    );
}

#[test]
fn former_domain_is_replaced_everywhere() {
    assert_eq!(
        create_new_url("https://manganelo.com/manga-x"),
        Some("https://manganato.com/manga-x".to_string())
    );
    assert_eq!(
        create_new_url("https://manganelo.com/manganelo"),
        Some("https://manganato.com/manganato".to_string())
    );
}

#[test]
fn other_urls_have_no_candidate() {
    assert_eq!(create_new_url("https://example.com/x"), None);
    assert_eq!(create_new_url("https://readmanganato.com/manga-x"), None);
    assert_eq!(create_new_url(""), None);
}

#[test]
fn repair_plan_follows_the_page_check() {
    let gone = line("https://manganelo.com/manga-x");
    match plan_repair(&gone, &Ok(true)) {
        Repair::TryCandidate(c) => assert_eq!(c, "https://manganato.com/manga-x"),
        other => panic!("unexpected {:?}", other),
    }
    assert!(matches!(plan_repair(&gone, &Ok(false)), Repair::Keep));
    let failed = Err(ScraperError { url: "u".to_string(), cause: FailureCause::Network("x".to_string()) });
    assert!(matches!(plan_repair(&gone, &failed), Repair::Keep));
    assert!(matches!(plan_repair(&line("https://example.com/x"), &Ok(true)), Repair::AskOperator));
}

#[test]
fn candidate_is_taken_only_when_its_page_is_there() {
    let old = line("https://manganelo.com/manga-x");
    let moved = find_new_url(&old, "https://manganato.com/manga-x".to_string(), Ok(false)).unwrap();
    assert_eq!(moved.url, "https://manganato.com/manga-x");
    assert_eq!(moved.last_chapter_num, ChapterNumber::whole(7));
    assert_eq!(moved.title, "T");
    assert!(find_new_url(&old, "c".to_string(), Ok(true)).is_none());
    assert_eq!(with_url(&old, "z".to_string()).url, "z");
}

#[test]
fn empty_or_missing_answer_keeps_the_old_url() {
    assert_eq!(ask_user_new_url("old".to_string(), Some("new".to_string())), "new");
    assert_eq!(ask_user_new_url("old".to_string(), Some(String::new())), "old");
    assert_eq!(ask_user_new_url("old".to_string(), None), "old");
}

//! What each command decides once the store is read: which entry an
//! argument names, and the record set to write back.
use vstd::prelude::*;
use crate::batch::{
    BatchReport, apply_batch, batch_updates, line_index, parse_usize, picked, refreshed,
    select_lines, split_spaces, token_index, update_one, usize_value,
};
use crate::text::{contains_text, occurs_in};
use crate::models::{CSVLine, LineChapter, LineView, MangaChapter, views, lemma_views_push};
use crate::reconcile::{apply_updates, find_new_lines, merge_new, reset_at, search_and_reset};
use crate::urls::{replace_text, replace_all};

verus! {

/// The word that asks for every entry.
pub const ALL_WORD: &'static str = "all";

/// `arg` reads as a line number: it parses as a `usize`.
pub open spec fn is_number_word(arg: Seq<char>) -> bool {
    usize_value(arg) is Some
}

/// Position of the first entry whose URL is `url`.
pub open spec fn url_position(s: Seq<LineView>, url: Seq<char>) -> Option<int>
    decreases s.len(),
{
    if s.len() == 0 {
        None
    } else {
        match url_position(s.drop_last(), url) {
            Some(i) => Some(i),
            None => if s.last().url == url {
                Some(s.len() - 1)
            } else {
                None
            },
        }
    }
}

fn is_number_text(arg: &str) -> (r: bool)
    ensures
        r == is_number_word(arg@),
{
    parse_usize(arg).is_some()
}

fn find_url(lines: &Vec<CSVLine>, url: &str) -> (r: Option<usize>)
    ensures
        match url_position(views(lines@), url@) {
            Some(p) => r == Some(p as usize),
            None => r is None,
        },
{
    let ghost v = views(lines@);
    let mut i: usize = 0;
    let target = url.to_string();
    while i < lines.len()
        invariant
            i <= lines.len(),
            v == views(lines@),
            target@ == url@,
            url_position(v.take(i as int), url@) is None,
        decreases lines.len() - i,
    {
        assert(v.take(i as int + 1).drop_last() =~= v.take(i as int));
        if lines[i].url == target {
            proof {
                lemma_url_position_prefix(v, i as int + 1, url@);
            }
            return Some(i);
        }
        i = i + 1;
    }
    assert(v.take(i as int) =~= v);
    None
}

proof fn lemma_url_position_prefix(s: Seq<LineView>, k: int, url: Seq<char>)
    requires
        0 <= k <= s.len(),
        url_position(s.take(k), url) is Some,
    ensures
        url_position(s, url) == url_position(s.take(k), url),
    decreases s.len(),
{
    if k < s.len() {
        assert(s.drop_last().take(k) =~= s.take(k));
        lemma_url_position_prefix(s.drop_last(), k, url);
    } else {
        assert(s.take(k) =~= s);
    }
}

/// The entry that `arg` names: by its line number counted from one when
/// `arg` parses as a `usize`, else by its URL.
pub open spec fn named_position(lines: Seq<LineView>, arg: Seq<char>) -> Option<int> {
    if is_number_word(arg) {
        token_index(arg, lines.len() as int)
    } else {
        url_position(lines, arg)
    }
}

/// Position of the entry that `arg` names, by line number or by URL.
pub fn locate_line(lines: &Vec<CSVLine>, arg: &str) -> (r: Option<usize>)
    ensures
        match named_position(views(lines@), arg@) {
            Some(p) => r == Some(p as usize),
            None => r is None,
        },
{
    if is_number_text(arg) {
        line_index(arg, lines.len())
    } else {
        find_url(lines, arg)
    }
}

/// The record set without the entry that `arg` names by line number, or
/// without every entry whose URL is `arg`.
pub open spec fn removed(lines: Seq<LineView>, arg: Seq<char>) -> Seq<LineView> {
    if is_number_word(arg) {
        match token_index(arg, lines.len() as int) {
            Some(p) => lines.remove(p),
            None => lines,
        }
    } else {
        lines.filter(|l: LineView| l.url != arg)
    }
}

/// Removes an entry by its line number, or every entry with the URL `arg`.
/// A line number past the end removes nothing.
pub fn remove_manga(lines: Vec<CSVLine>, arg: &str) -> (r: Vec<CSVLine>)
    ensures
        views(r@) == removed(views(lines@), arg@),
{
    let ghost lv = views(lines@);
    if is_number_text(arg) {
        let mut lines = lines;
        match line_index(arg, lines.len()) {
            Some(p) => {
                lines.remove(p);
                assert(views(lines@) =~= lv.remove(p as int));
            },
            None => {},
        }
        lines
    } else {
        let target = arg.to_string();
        let ghost pred = |l: LineView| l.url != arg@;
        let mut kept: Vec<CSVLine> = Vec::new();
        let mut i: usize = 0;
        while i < lines.len()
            invariant
                i <= lines.len(),
                lv == views(lines@),
                target@ == arg@,
                pred == (|l: LineView| l.url != arg@),
                views(kept@) == lv.take(i as int).filter(pred),
            decreases lines.len() - i,
        {
            proof {
                reveal(Seq::filter);
                assert(lv.take(i as int + 1).drop_last() =~= lv.take(i as int));
            }
            if lines[i].url != target {
                let ghost prev = kept@;
                let item = lines[i].clone();
                kept.push(item);
                proof {
                    lemma_views_push(prev, item);
                }
            }
            assert(views(kept@) =~= lv.take(i as int + 1).filter(pred));
            i = i + 1;
        }
        assert(lv.take(i as int) =~= lv);
        kept
    }
}

/// The record set with the entry at line number `arg` (counted from one)
/// one chapter back; `None` when `arg` is not a line number of the set, or
/// the entry's chapter cannot go lower.
pub fn unread_chapter(lines: &Vec<CSVLine>, arg: &str) -> (r: Option<Vec<CSVLine>>)
    ensures
        match token_index(arg@, lines@.len() as int) {
            Some(p) => if lines@[p].last_chapter_num.value() >= i64::MIN + 1000 {
                r matches Some(v) && views(v@) == reset_at(views(lines@), p)
            } else {
                r is None
            },
            None => r is None,
        },
{
    match line_index(arg, lines.len()) {
        Some(p) => {
            if lines[p].last_chapter_num.milli >= i64::MIN + 1000 {
                Some(search_and_reset(lines.as_slice(), p))
            } else {
                None
            }
        },
        None => None,
    }
}

/// The entries that an update names: all of them for `all`, else those
/// whose line numbers the argument lists, separated by spaces.
pub fn lines_to_update(arg: &str, lines: &Vec<CSVLine>) -> (r: Vec<CSVLine>)
    ensures
        arg@ == ALL_WORD@ ==> views(r@) == views(lines@),
        arg@ != ALL_WORD@ ==> views(r@) == picked(split_spaces(arg@), views(lines@)),
{
    if arg.to_string() == ALL_WORD.to_string() {
        let mut r: Vec<CSVLine> = Vec::new();
        let mut i: usize = 0;
        while i < lines.len()
            invariant
                i <= lines.len(),
                views(r@) =~= views(lines@).take(i as int),
            decreases lines.len() - i,
        {
            let ghost prev = r@;
            let item = lines[i].clone();
            r.push(item);
            proof {
                lemma_views_push(prev, item);
            }
            i = i + 1;
        }
        assert(views(lines@).take(i as int) =~= views(lines@));
        r
    } else {
        select_lines(arg, lines)
    }
}

/// The record set with a new entry for `url` at its end, at the chapter just
/// resolved and with the series title read from the page.
pub fn add_new_manga(lines: Vec<CSVLine>, url: &str, chapter: &MangaChapter) -> (r: Vec<CSVLine>)
    ensures
        views(r@) == views(lines@).push(
            LineView { url: url@, last: chapter.num.value(), title: chapter.manga_title@ },
        ),
{
    let mut lines = lines;
    let ghost prev = lines@;
    let item = CSVLine {
        url: url.to_string(),
        last_chapter_num: chapter.num,
        title: chapter.manga_title.clone(),
    };
    lines.push(item);
    proof {
        lemma_views_push(prev, item);
    }
    lines
}

/// Which resolved chapters a listing shows (their positions), and whether
/// any of them is past the last chapter read.
#[derive(Debug)]
pub struct Listing {
    pub shown: Vec<usize>,
    pub has_new: bool,
}

/// The positions of the chapters that a listing shows: those with an update,
/// and the others too unless only new ones are asked for.
pub open spec fn shown_positions(updates: Seq<bool>, only_new: bool) -> Seq<usize>
    decreases updates.len(),
{
    if updates.len() == 0 {
        Seq::empty()
    } else {
        let rest = shown_positions(updates.drop_last(), only_new);
        if updates.last() || !only_new {
            rest.push((updates.len() - 1) as usize)
        } else {
            rest
        }
    }
}

pub open spec fn update_flags(chapters: Seq<LineChapter>) -> Seq<bool> {
    chapters.map_values(|c: LineChapter| c.chapter.num.value() > c.line.last_chapter_num.value())
}

/// Decides what a listing of resolved chapters shows.
pub fn display_lines(chapters: &Vec<LineChapter>, only_new: bool) -> (r: Listing)
    ensures
        r.shown@ == shown_positions(update_flags(chapters@), only_new),
        r.has_new == exists|i: int| 0 <= i < chapters@.len() && #[trigger] update_flags(chapters@)[i],
{
    let ghost flags = update_flags(chapters@);
    let mut shown: Vec<usize> = Vec::new();
    let mut has_new = false;
    let mut i: usize = 0;
    while i < chapters.len()
        invariant
            i <= chapters.len(),
            flags == update_flags(chapters@),
            shown@ == shown_positions(flags.take(i as int), only_new),
            has_new == exists|k: int| 0 <= k < i && #[trigger] flags[k],
        decreases chapters.len() - i,
    {
        assert(flags.take(i as int + 1).drop_last() =~= flags.take(i as int));
        let new = chapters[i].has_update();
        assert(new == flags[i as int]);
        if new || !only_new {
            shown.push(i);
        }
        if new {
            has_new = true;
            assert(flags[i as int]);
        }
        assert(has_new == exists|k: int| 0 <= k < i + 1 && #[trigger] flags[k]) by {
            if !has_new {
                assert forall|k: int| 0 <= k < i + 1 implies !#[trigger] flags[k] by {
                    if k == i {
                    }
                }
            }
        }
        i = i + 1;
    }
    assert(flags.take(i as int) =~= flags);
    Listing { shown, has_new }
}

/// The text of a list of URLs with its carriage returns taken out.
pub fn read_urls(contents: &str) -> (r: String)
    ensures
        r@ == replace_all(contents@, seq!['\r'], Seq::empty()),
{
    proof {
        reveal_strlit("\r");
        reveal_strlit("");
        assert("\r"@ =~= seq!['\r']);
        assert(""@ =~= Seq::<char>::empty());
    }
    replace_text(contents, "\r", "")
}

/// The record set after an import: the imported entries alone when
/// overwriting, else the current ones with the imported entries whose URL
/// they lack appended.
pub fn import_file(imported: Vec<CSVLine>, current: Vec<CSVLine>, overwrite: bool) -> (r: Vec<
    CSVLine,
>)
    ensures
        overwrite ==> views(r@) == views(imported@),
        !overwrite ==> views(r@) == merge_new(views(imported@), views(current@)),
{
    if overwrite {
        imported
    } else {
        find_new_lines(imported, current)
    }
}

/// What an update leads to once its entries are resolved.
#[derive(Debug)]
pub enum UpdateOutcome {
    /// The record set to write.
    Write(Vec<CSVLine>),
    /// The single entry asked for already holds its latest chapter.
    UpToDate,
    /// The single entry asked for could not be resolved: nothing to write.
    NothingResolved,
}

/// An update argument that names a single entry: neither `all` nor a list.
pub open spec fn names_one(arg: Seq<char>) -> bool {
    arg != ALL_WORD@ && !occurs_in(arg, seq![' '])
}

/// Decides what the update asked for by `arg` writes, from the report of
/// the batch that resolved the entries it named. A single entry writes
/// nothing when it is already up to date or could not be resolved; `all` or
/// a list always writes the record set, with the resolved entries refreshed
/// and the others kept (all of them unchanged when none resolved).
pub fn apply_update(arg: &str, lines: Vec<CSVLine>, report: &BatchReport) -> (r: UpdateOutcome)
    ensures
        report.resolved@.len() == 0 && names_one(arg@) ==> r is NothingResolved,
        report.resolved@.len() > 0 && names_one(arg@) ==> {
            let found = report.resolved@[0];
            if found.chapter.num.value() == found.line.last_chapter_num.value() {
                r is UpToDate
            } else {
                (r matches UpdateOutcome::Write(v) && v.len() == lines.len() && forall|i: int|
                    0 <= i < v.len() ==> #[trigger] v[i]@ == if lines[i].url@ == found.line.url@ {
                        refreshed(found.line@, found.chapter@)
                    } else {
                        lines[i]@
                    })
            }
        },
        !names_one(arg@) ==> (r matches UpdateOutcome::Write(v)
            && views(v@) == apply_updates(views(lines@), batch_updates(report.resolved_view()))),
{
    proof {
        reveal_strlit(" ");
        assert(" "@ =~= seq![' ']);
    }
    let single = arg.to_string() != ALL_WORD.to_string() && !contains_text(arg, " ");
    if single {
        if report.resolved.len() == 0 {
            return UpdateOutcome::NothingResolved;
        }
        match update_one(lines, &report.resolved[0]) {
            Some(v) => UpdateOutcome::Write(v),
            None => UpdateOutcome::UpToDate,
        }
    } else {
        UpdateOutcome::Write(apply_batch(lines, report))
    }
}

} // verus!

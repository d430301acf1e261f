//! Resolving many entries at once: each entry is paired with its own
//! outcome, failures are kept apart and never stop the rest.
use vstd::prelude::*;
use crate::models::{
    CSVLine, ChapterView, ExtractionError, LineChapter, LineView, MangaChapter, ScraperError,
    lemma_views_push, views,
};
use crate::page::{ChapterKey, download_view, extracted, find_last_chapter, outcome_view, resolved};
use crate::reconcile::{apply_updates, update_chapters_multiple};
use crate::chapter::{
    all_digits, digits_value, is_digit, lemma_digits_nonneg, lemma_digits_prefix_le,
    lemma_digits_step,
};

verus! {

/// The outcome of resolving one entry, as a mathematical value.
pub type OutcomeView = Result<ChapterKey, (Seq<char>, Option<ExtractionError>)>;

/// The outcome for each entry, given the result of fetching its page.
pub open spec fn outcomes(entries: Seq<LineView>, downloads: Seq<Result<Seq<char>, Seq<char>>>) -> Seq<
    OutcomeView,
> {
    Seq::new(entries.len(), |i: int| resolved(entries[i].url, downloads[i]))
}

/// The entries that resolved, each with its chapter link and number, in
/// entry order.
pub open spec fn successes(entries: Seq<LineView>, results: Seq<OutcomeView>) -> Seq<
    (LineView, ChapterKey),
>
    decreases entries.len(),
{
    if entries.len() == 0 || results.len() == 0 {
        Seq::empty()
    } else {
        let rest = successes(entries.drop_last(), results.drop_last());
        match results.last() {
            Ok(c) => rest.push((entries.last(), c)),
            Err(_) => rest,
        }
    }
}

/// The failures, in entry order.
pub open spec fn failures(entries: Seq<LineView>, results: Seq<OutcomeView>) -> Seq<
    (Seq<char>, Option<ExtractionError>),
>
    decreases entries.len(),
{
    if entries.len() == 0 || results.len() == 0 {
        Seq::empty()
    } else {
        let rest = failures(entries.drop_last(), results.drop_last());
        match results.last() {
            Ok(_) => rest,
            Err(e) => rest.push(e),
        }
    }
}

/// Number of fetches that failed.
pub open spec fn unreachable_count(downloads: Seq<Result<Seq<char>, Seq<char>>>) -> nat
    decreases downloads.len(),
{
    if downloads.len() == 0 {
        0
    } else {
        unreachable_count(downloads.drop_last()) + if downloads.last() is Err {
            1nat
        } else {
            0nat
        }
    }
}

/// What a batch gave: the entries that resolved, each with its chapter, and
/// the failures.
#[derive(Debug)]
pub struct BatchReport {
    pub resolved: Vec<LineChapter>,
    pub failed: Vec<ScraperError>,
}

pub open spec fn pair_view(p: LineChapter) -> (LineView, ChapterView) {
    (p.line@, p.chapter@)
}

pub open spec fn pair_key(p: LineChapter) -> (LineView, ChapterKey) {
    (p.line@, (p.chapter.url@, p.chapter.num.value()))
}

pub open spec fn error_view(e: ScraperError) -> (Seq<char>, Option<ExtractionError>) {
    outcome_view(Err(e))->Err_0
}

impl BatchReport {
    pub open spec fn resolved_view(&self) -> Seq<(LineView, ChapterView)> {
        self.resolved@.map_values(|p: LineChapter| pair_view(p))
    }

    pub open spec fn resolved_keys(&self) -> Seq<(LineView, ChapterKey)> {
        self.resolved@.map_values(|p: LineChapter| pair_key(p))
    }

    pub open spec fn failed_view(&self) -> Seq<(Seq<char>, Option<ExtractionError>)> {
        self.failed@.map_values(|e: ScraperError| error_view(e))
    }
}

/// Resolves each entry from the result of fetching its page (`downloads[i]`
/// for `entries[i]`). Every entry gives exactly one outcome: it is either
/// among the resolved, with its chapter, or among the failures.
pub fn resolve_all(entries: &Vec<CSVLine>, downloads: Vec<Result<String, String>>) -> (r: BatchReport)
    requires
        downloads.len() == entries.len(),
    ensures
        ({
            let res = outcomes(views(entries@), downloads@.map_values(|d| download_view(d)));
            &&& r.resolved_keys() == successes(views(entries@), res)
            &&& r.failed_view() == failures(views(entries@), res)
        }),
{
    let ghost ev = views(entries@);
    let ghost dv = downloads@.map_values(|d| download_view(d));
    let ghost res = outcomes(ev, dv);
    let mut resolved: Vec<LineChapter> = Vec::new();
    let mut failed: Vec<ScraperError> = Vec::new();
    let mut downloads = downloads;
    let ghost all = downloads@;
    assert(all.skip(0) =~= all);
    let mut i: usize = 0;
    while i < entries.len()
        invariant
            i <= entries.len(),
            all.len() == entries.len(),
            ev == views(entries@),
            dv == all.map_values(|d| download_view(d)),
            res == outcomes(ev, dv),
            downloads@ == all.skip(i as int),
            resolved@.map_values(|p: LineChapter| pair_key(p)) == successes(
                ev.take(i as int),
                res.take(i as int),
            ),
            failed@.map_values(|e: ScraperError| error_view(e)) == failures(
                ev.take(i as int),
                res.take(i as int),
            ),
        decreases entries.len() - i,
    {
        let d = downloads.remove(0);
        assert(downloads@ =~= all.skip(i as int + 1));
        assert(download_view(d) == dv[i as int]);
        let line = &entries[i];
        let outcome = find_last_chapter(line.url.as_str(), d);
        assert(ev.take(i as int + 1).drop_last() =~= ev.take(i as int));
        assert(res.take(i as int + 1).drop_last() =~= res.take(i as int));
        assert(res[i as int] == outcome_view(outcome));
        match outcome {
            Ok(chapter) => {
                let ghost prev = resolved@;
                let item = LineChapter { line: line.clone(), chapter };
                resolved.push(item);
                assert(resolved@.map_values(|p: LineChapter| pair_key(p)) =~= prev.map_values(
                    |p: LineChapter| pair_key(p),
                ).push(pair_key(item)));
            },
            Err(e) => {
                let ghost prev = failed@;
                failed.push(e);
                assert(failed@.map_values(|e: ScraperError| error_view(e)) =~= prev.map_values(
                    |e: ScraperError| error_view(e),
                ).push(error_view(e)));
            },
        }
        i = i + 1;
    }
    assert(ev.take(i as int) =~= ev);
    assert(res.take(i as int) =~= res);
    BatchReport { resolved, failed }
}

/// A batch over `n` entries gives exactly one outcome per entry; when `k`
/// of the pages cannot be fetched and every fetched page reads, it gives
/// exactly `n - k` resolved entries and `k` failures.
pub proof fn lemma_batch_counts(
    entries: Seq<LineView>,
    downloads: Seq<Result<Seq<char>, Seq<char>>>,
)
    requires
        downloads.len() == entries.len(),
    ensures
        ({
            let res = outcomes(entries, downloads);
            &&& successes(entries, res).len() + failures(entries, res).len() == entries.len()
            &&& (forall|i: int|
                0 <= i < downloads.len() && #[trigger] downloads[i] is Ok ==> extracted(
                    downloads[i]->Ok_0,
                ) is Ok) ==> {
                &&& successes(entries, res).len() == entries.len() - unreachable_count(downloads)
                &&& failures(entries, res).len() == unreachable_count(downloads)
            }
        }),
    decreases entries.len(),
{
    if entries.len() > 0 {
        let e = entries.drop_last();
        let d = downloads.drop_last();
        lemma_batch_counts(e, d);
        assert(outcomes(e, d) =~= outcomes(entries, downloads).drop_last());
        if forall|i: int|
            0 <= i < downloads.len() && #[trigger] downloads[i] is Ok ==> extracted(
                downloads[i]->Ok_0,
            ) is Ok {
            assert forall|i: int| 0 <= i < d.len() && #[trigger] d[i] is Ok implies extracted(
                d[i]->Ok_0,
            ) is Ok by {
                assert(d[i] == downloads[i]);
            }
            let last = downloads.len() - 1;
            assert(downloads[last] == downloads.last());
        }
    }
}

/// `s` cut at each space: the words between spaces, empty ones included.
pub open spec fn split_spaces(s: Seq<char>) -> Seq<Seq<char>>
    decreases s.len(),
{
    if s.len() == 0 {
        seq![Seq::empty()]
    } else {
        let r = split_spaces(s.drop_last());
        if s.last() == ' ' {
            r.push(Seq::empty())
        } else {
            r.update(r.len() - 1, r.last().push(s.last()))
        }
    }
}

/// The digits of a word read as an unsigned number: all of it but a
/// leading `'+'`.
pub open spec fn unsigned_digits(tok: Seq<char>) -> Seq<char> {
    if tok.len() > 0 && tok[0] == '+' { tok.drop_first() } else { tok }
}

/// The number a word reads as, as Rust reads a `usize`: an optional `'+'`
/// and then at least one decimal digit, with a value that fits.
pub open spec fn usize_value(tok: Seq<char>) -> Option<int> {
    let d = unsigned_digits(tok);
    if d.len() > 0 && all_digits(d) && digits_value(d) <= usize::MAX {
        Some(digits_value(d))
    } else {
        None
    }
}

/// The position (from zero) that a word names when read as a line number
/// counted from one, if it is one of `len` lines.
pub open spec fn token_index(tok: Seq<char>, len: int) -> Option<int> {
    match usize_value(tok) {
        Some(v) => if 1 <= v <= len {
            Some(v - 1)
        } else {
            None
        },
        None => None,
    }
}

/// The lines that the words name, in the order of the words; words that
/// name no line are passed over.
pub open spec fn picked(tokens: Seq<Seq<char>>, lines: Seq<LineView>) -> Seq<LineView>
    decreases tokens.len(),
{
    if tokens.len() == 0 {
        Seq::empty()
    } else {
        let rest = picked(tokens.drop_last(), lines);
        match token_index(tokens.last(), lines.len() as int) {
            Some(p) => rest.push(lines[p]),
            None => rest,
        }
    }
}

/// Reads `tok` as a `usize`: an optional `'+'`, then decimal digits.
pub fn parse_usize(tok: &str) -> (r: Option<usize>)
    ensures
        r is Some == usize_value(tok@) is Some,
        r matches Some(v) ==> usize_value(tok@) == Some(v as int),
{
    let n = tok.unicode_len();
    let ghost t = tok@;
    let mut start: usize = 0;
    if n > 0 && tok.get_char(0) == '+' {
        start = 1;
    }
    let ghost d = unsigned_digits(t);
    assert(d =~= t.skip(start as int));
    if start == n {
        return None;
    }
    let mut acc: usize = 0;
    let mut i: usize = start;
    while i < n
        invariant
            start <= i <= n,
            n == t.len(),
            t == tok@,
            d == t.skip(start as int),
            d == unsigned_digits(t),
            forall|j: int| 0 <= j < i - start ==> is_digit(#[trigger] d[j]),
            acc as int == digits_value(d.take(i - start)),
        decreases n - i,
    {
        let c = tok.get_char(i);
        assert(d[i - start] == c);
        if !('0' <= c && c <= '9') {
            assert(!is_digit(d[i - start]));
            return None;
        }
        proof {
            lemma_digits_step(d, i - start);
            assert(all_digits(d.take(i - start)));
            lemma_digits_nonneg(d.take(i - start));
        }
        let next: u128 = acc as u128 * 10 + (c as u128 - '0' as u128);
        if next > usize::MAX as u128 {
            proof {
                if all_digits(d) {
                    lemma_digits_prefix_le(d, i - start + 1);
                }
            }
            return None;
        }
        acc = next as usize;
        i = i + 1;
    }
    assert(d.take(n - start) =~= d);
    Some(acc)
}

/// Reads `tok` as a line number counted from one among `len` lines, and
/// gives its position from zero.
pub fn line_index(tok: &str, len: usize) -> (r: Option<usize>)
    ensures
        r is Some == token_index(tok@, len as int) is Some,
        r matches Some(p) ==> token_index(tok@, len as int) == Some(p as int),
{
    match parse_usize(tok) {
        Some(v) => {
            if 1 <= v && v <= len {
                Some(v - 1)
            } else {
                None
            }
        },
        None => None,
    }
}

/// The lines that `input` names by their numbers counted from one,
/// separated by spaces, in the order given. Words that are not numbers, and
/// numbers past the last line, are passed over.
pub fn select_lines(input: &str, lines: &Vec<CSVLine>) -> (r: Vec<CSVLine>)
    ensures
        views(r@) == picked(split_spaces(input@), views(lines@)),
{
    let n = input.unicode_len();
    let ghost s = input@;
    let ghost lv = views(lines@);
    let mut r: Vec<CSVLine> = Vec::new();
    let mut start: usize = 0;
    let mut i: usize = 0;
    assert(s.take(0) =~= Seq::<char>::empty());
    assert(s.subrange(0, 0) =~= Seq::<char>::empty());
    while i < n
        invariant
            start <= i <= n,
            n == s.len(),
            s == input@,
            lv == views(lines@),
            split_spaces(s.take(i as int)).len() >= 1,
            split_spaces(s.take(i as int)).last() == s.subrange(start as int, i as int),
            views(r@) == picked(split_spaces(s.take(i as int)).drop_last(), lv),
        decreases n - i,
    {
        let c = input.get_char(i);
        let ghost before = split_spaces(s.take(i as int));
        assert(s.take(i as int + 1).drop_last() =~= s.take(i as int));
        if c == ' ' {
            let word = input.substring_char(start, i);
            let ghost prev = r@;
            match line_index(word, lines.len()) {
                Some(p) => {
                    let item = lines[p].clone();
                    r.push(item);
                    proof {
                        lemma_views_push(prev, item);
                    }
                },
                None => {},
            }
            assert(split_spaces(s.take(i as int + 1)).drop_last() =~= before);
            assert(before.drop_last().push(before.last()) =~= before);
            start = i + 1;
            assert(s.subrange(start as int, i as int + 1) =~= Seq::<char>::empty());
        } else {
            assert(split_spaces(s.take(i as int + 1)).drop_last() =~= before.drop_last());
            assert(s.subrange(start as int, i as int + 1) =~= s.subrange(start as int, i as int).push(c));
        }
        i = i + 1;
    }
    assert(s.take(n as int) =~= s);
    let ghost all = split_spaces(s);
    let word = input.substring_char(start, n);
    let ghost prev = r@;
    match line_index(word, lines.len()) {
        Some(p) => {
            let item = lines[p].clone();
            r.push(item);
            proof {
                lemma_views_push(prev, item);
            }
        },
        None => {},
    }
    assert(all.drop_last().push(all.last()) =~= all);
    r
}

/// The entry refreshed from the chapter resolved for it: same URL, the
/// chapter's number and the series title read from the page.
pub open spec fn refreshed(l: LineView, c: ChapterView) -> LineView {
    LineView { url: l.url, last: c.num, title: c.manga_title }
}

/// The entry `manga` refreshed from `chapter`.
pub fn search_update(manga: &CSVLine, chapter: &MangaChapter) -> (r: CSVLine)
    ensures
        r@ == refreshed(manga@, chapter@),
{
    CSVLine {
        url: manga.url.clone(),
        last_chapter_num: chapter.num,
        title: chapter.manga_title.clone(),
    }
}

/// The refreshed entries of a batch, in its order.
pub open spec fn batch_updates(report: Seq<(LineView, ChapterView)>) -> Seq<LineView> {
    report.map_values(|p: (LineView, ChapterView)| refreshed(p.0, p.1))
}

/// The record set once the entries that a batch resolved are refreshed;
/// entries that failed, or were not in the batch, stay as they are.
pub fn apply_batch(lines: Vec<CSVLine>, report: &BatchReport) -> (r: Vec<CSVLine>)
    ensures
        views(r@) == apply_updates(views(lines@), batch_updates(report.resolved_view())),
{
    let mut updates: Vec<CSVLine> = Vec::new();
    let mut i: usize = 0;
    while i < report.resolved.len()
        invariant
            i <= report.resolved.len(),
            views(updates@) =~= batch_updates(report.resolved_view()).take(i as int),
        decreases report.resolved.len() - i,
    {
        let ghost prev = updates@;
        let item = search_update(&report.resolved[i].line, &report.resolved[i].chapter);
        updates.push(item);
        proof {
            lemma_views_push(prev, item);
        }
        i = i + 1;
    }
    assert(batch_updates(report.resolved_view()).take(i as int) =~= batch_updates(
        report.resolved_view(),
    ));
    update_chapters_multiple(lines, updates)
}

/// The record set once the single resolved entry `found` is refreshed, or
/// `None` when its chapter is the one already stored.
pub fn update_one(lines: Vec<CSVLine>, found: &LineChapter) -> (r: Option<Vec<CSVLine>>)
    ensures
        found.chapter.num.value() == found.line.last_chapter_num.value() <==> r is None,
        r matches Some(v) ==> v.len() == lines.len() && forall|i: int|
            0 <= i < v.len() ==> #[trigger] v[i]@ == if lines[i].url@ == found.line.url@ {
                refreshed(found.line@, found.chapter@)
            } else {
                lines[i]@
            },
{
    if found.chapter.num.milli == found.line.last_chapter_num.milli {
        None
    } else {
        let updated = search_update(&found.line, &found.chapter);
        Some(crate::reconcile::update_chapter_in_vec(lines, updated))
    }
}

} // verus!

//! Merging record sets: refreshing known entries, importing new ones and
//! stepping one entry back by a chapter.
use vstd::prelude::*;
use crate::chapter::{ChapterNumber, UNITS_PER_CHAPTER};
use crate::models::{CSVLine, LineView, views, lemma_views_push};

verus! {

/// Some entry of `s` has the URL `url`.
pub open spec fn has_url(s: Seq<LineView>, url: Seq<char>) -> bool {
    exists|j: int| 0 <= j < s.len() && #[trigger] s[j].url == url
}

/// `j` is the first position of `s` whose entry has the URL `url`.
pub open spec fn is_first_with_url(s: Seq<LineView>, url: Seq<char>, j: int) -> bool {
    &&& 0 <= j < s.len()
    &&& s[j].url == url
    &&& forall|k: int| 0 <= k < j ==> #[trigger] s[k].url != url
}

/// The first position of `s` whose entry has the URL `url`, when there is one.
pub open spec fn first_url_index(s: Seq<LineView>, url: Seq<char>) -> int {
    choose|j: int| is_first_with_url(s, url, j)
}

/// The entry `e` once refreshed from `updates`: replaced by the first update
/// with its URL, or kept as it is.
pub open spec fn updated_entry(e: LineView, updates: Seq<LineView>) -> LineView {
    if has_url(updates, e.url) {
        updates[first_url_index(updates, e.url)]
    } else {
        e
    }
}

/// `original` with each entry refreshed from `updates`.
pub open spec fn apply_updates(original: Seq<LineView>, updates: Seq<LineView>) -> Seq<LineView> {
    Seq::new(original.len(), |i: int| updated_entry(original[i], updates))
}

/// The entries of `imported` whose URL is not in `current`, in their order.
pub open spec fn new_entries(imported: Seq<LineView>, current: Seq<LineView>) -> Seq<LineView> {
    imported.filter(|l: LineView| !has_url(current, l.url))
}

/// `current` followed by the entries of `imported` with a URL new to it.
pub open spec fn merge_new(imported: Seq<LineView>, current: Seq<LineView>) -> Seq<LineView> {
    current + new_entries(imported, current)
}

/// `s` with the entry at `i` one chapter back; `s` itself when `i` is past
/// its end.
pub open spec fn reset_at(s: Seq<LineView>, i: int) -> Seq<LineView> {
    if 0 <= i < s.len() {
        s.update(i, LineView { last: s[i].last - 1000, ..s[i] })
    } else {
        s
    }
}

proof fn lemma_first_is_chosen(s: Seq<LineView>, url: Seq<char>, j: int)
    requires
        is_first_with_url(s, url, j),
    ensures
        has_url(s, url),
        first_url_index(s, url) == j,
{
    let k = choose|k: int| is_first_with_url(s, url, k);
    assert(is_first_with_url(s, url, k));
    if k < j {
        assert(s[k].url != url);
    } else if k > j {
        assert(s[j].url != url);
    }
}

proof fn lemma_first_exists(s: Seq<LineView>, url: Seq<char>)
    requires
        has_url(s, url),
    ensures
        is_first_with_url(s, url, first_url_index(s, url)),
    decreases s.len(),
{
    if s[0].url == url {
        lemma_first_is_chosen(s, url, 0);
    } else {
        let t = s.drop_first();
        let j = choose|j: int| 0 <= j < s.len() && #[trigger] s[j].url == url;
        assert(t[j - 1].url == url);
        lemma_first_exists(t, url);
        let k = choose|k: int| is_first_with_url(t, url, k);
        assert forall|m: int| 0 <= m < k + 1 implies #[trigger] s[m].url != url by {
            if m > 0 {
                assert(s[m] == t[m - 1]);
            }
        }
        lemma_first_is_chosen(s, url, k + 1);
    }
}

/// Position of the first entry of `lines` with the URL `url`, if any.
fn position_of_url(lines: &Vec<CSVLine>, url: &String) -> (r: Option<usize>)
    ensures
        r.is_some() == has_url(views(lines@), url@),
        r matches Some(j) ==> is_first_with_url(views(lines@), url@, j as int),
{
    let ghost v = views(lines@);
    let mut j: usize = 0;
    while j < lines.len()
        invariant
            j <= lines.len(),
            v == views(lines@),
            forall|k: int| 0 <= k < j ==> #[trigger] v[k].url != url@,
        decreases lines.len() - j,
    {
        if lines[j].url == *url {
            assert(v[j as int].url == url@);
            return Some(j);
        }
        j = j + 1;
    }
    assert forall|k: int| 0 <= k < v.len() implies #[trigger] v[k].url != url@ by {}
    None
}

/// Replaces every entry with the URL of `updated` by `updated`; the other
/// entries stay as they are.
pub fn update_chapter_in_vec(original: Vec<CSVLine>, updated: CSVLine) -> (r: Vec<CSVLine>)
    ensures
        r.len() == original.len(),
        forall|i: int|
            0 <= i < r.len() ==> #[trigger] r[i]@ == if original[i].url@ == updated.url@ {
                updated@
            } else {
                original[i]@
            },
{
    let mut r: Vec<CSVLine> = Vec::new();
    let mut i: usize = 0;
    while i < original.len()
        invariant
            i <= original.len(),
            r.len() == i,
            forall|k: int|
                0 <= k < i ==> #[trigger] r[k]@ == if original[k].url@ == updated.url@ {
                    updated@
                } else {
                    original[k]@
                },
        decreases original.len() - i,
    {
        if original[i].url == updated.url {
            r.push(updated.clone());
        } else {
            r.push(original[i].clone());
        }
        i = i + 1;
    }
    r
}

/// Refreshes each entry of `original` from the first entry of `updated`
/// with its URL. Entries of `updated` with a URL absent from `original` are
/// not added.
pub fn update_chapters_multiple(original: Vec<CSVLine>, updated: Vec<CSVLine>) -> (r: Vec<CSVLine>)
    ensures
        views(r@) == apply_updates(views(original@), views(updated@)),
{
    let ghost uv = views(updated@);
    let mut r: Vec<CSVLine> = Vec::new();
    let mut i: usize = 0;
    while i < original.len()
        invariant
            i <= original.len(),
            uv == views(updated@),
            views(r@) =~= apply_updates(views(original@), uv).take(i as int),
        decreases original.len() - i,
    {
        let ghost prev = r@;
        let item = match position_of_url(&updated, &original[i].url) {
            Some(j) => {
                proof {
                    lemma_first_is_chosen(uv, original[i as int].url@, j as int);
                }
                updated[j].clone()
            },
            None => original[i].clone(),
        };
        assert(item@ == apply_updates(views(original@), uv)[i as int]);
        r.push(item);
        proof {
            lemma_views_push(prev, item);
        }
        i = i + 1;
        assert(views(r@) =~= apply_updates(views(original@), uv).take(i as int));
    }
    r
}

/// Appends to `current` the entries of `imported` whose URL `current` does
/// not hold, in their order; entries of `current` are never overwritten.
pub fn find_new_lines(imported: Vec<CSVLine>, current: Vec<CSVLine>) -> (r: Vec<CSVLine>)
    ensures
        views(r@) == merge_new(views(imported@), views(current@)),
{
    let ghost iv = views(imported@);
    let ghost cv = views(current@);
    let ghost pred = |l: LineView| !has_url(cv, l.url);
    let mut added: Vec<CSVLine> = Vec::new();
    let mut i: usize = 0;
    while i < imported.len()
        invariant
            i <= imported.len(),
            iv == views(imported@),
            cv == views(current@),
            pred == (|l: LineView| !has_url(cv, l.url)),
            views(added@) == iv.take(i as int).filter(pred),
        decreases imported.len() - i,
    {
        let present = position_of_url(&current, &imported[i].url);
        proof {
            reveal(Seq::filter);
            assert(iv.take(i as int + 1).drop_last() =~= iv.take(i as int));
        }
        if present.is_none() {
            let ghost prev = added@;
            let item = imported[i].clone();
            added.push(item);
            proof {
                lemma_views_push(prev, item);
            }
            assert(views(added@) =~= iv.take(i as int + 1).filter(pred));
        } else {
            assert(views(added@) =~= iv.take(i as int + 1).filter(pred));
        }
        i = i + 1;
    }
    assert(iv.take(i as int) =~= iv);
    let mut r = current;
    let ghost before = r@;
    let mut k: usize = 0;
    while k < added.len()
        invariant
            k <= added.len(),
            views(r@) =~= views(before) + views(added@).take(k as int),
        decreases added.len() - k,
    {
        let ghost prev = r@;
        let item = added[k].clone();
        r.push(item);
        proof {
            lemma_views_push(prev, item);
        }
        k = k + 1;
        assert(views(r@) =~= views(before) + views(added@).take(k as int));
    }
    assert(views(added@).take(k as int) =~= views(added@));
    r
}

/// Steps the entry at `position` (counted from zero) back by one chapter;
/// every other entry stays as it is. A position past the end leaves the
/// entries unchanged.
pub fn search_and_reset(lines: &[CSVLine], position: usize) -> (r: Vec<CSVLine>)
    requires
        position < lines@.len() ==> lines@[position as int].last_chapter_num.value() >= i64::MIN
            + 1000,
    ensures
        views(r@) == reset_at(views(lines@), position as int),
{
    let mut r: Vec<CSVLine> = Vec::new();
    let mut i: usize = 0;
    while i < lines.len()
        invariant
            i <= lines@.len(),
            position < lines@.len() ==> lines@[position as int].last_chapter_num.value()
                >= i64::MIN + 1000,
            views(r@) =~= reset_at(views(lines@), position as int).take(i as int),
        decreases lines@.len() - i,
    {
        let line = &lines[i];
        let ghost prev = r@;
        let item = if i == position {
            CSVLine {
                url: line.url.clone(),
                last_chapter_num: ChapterNumber {
                    milli: line.last_chapter_num.milli - UNITS_PER_CHAPTER,
                },
                title: line.title.clone(),
            }
        } else {
            line.clone()
        };
        assert(item@ == reset_at(views(lines@), position as int)[i as int]);
        r.push(item);
        proof {
            lemma_views_push(prev, item);
        }
        i = i + 1;
        assert(views(r@) =~= reset_at(views(lines@), position as int).take(i as int));
    }
    assert(reset_at(views(lines@), position as int).take(i as int) =~= reset_at(
        views(lines@),
        position as int,
    ));
    r
}

/// Import keeps `current` as it is and appends only the imported entries
/// whose URL it lacks: every entry of `current` keeps its place and values,
/// the new entries follow in their imported order, and the length grows by
/// their number.
pub proof fn lemma_merge_new_entries(imported: Seq<LineView>, current: Seq<LineView>)
    ensures
        ({
            let r = merge_new(imported, current);
            let added = new_entries(imported, current);
            &&& r.len() == current.len() + added.len()
            &&& forall|i: int| 0 <= i < current.len() ==> #[trigger] r[i] == current[i]
            &&& r.subrange(current.len() as int, r.len() as int) == added
            &&& forall|k: int|
                current.len() <= k < r.len() ==> !has_url(current, #[trigger] r[k].url)
                    && imported.contains(r[k])
            &&& forall|j: int|
                0 <= j < imported.len() && !has_url(current, imported[j].url)
                    ==> #[trigger] added.contains(imported[j])
        }),
{
    let pred = |l: LineView| !has_url(current, l.url);
    let r = merge_new(imported, current);
    let added = new_entries(imported, current);
    broadcast use Seq::lemma_filter_pred, Seq::lemma_filter_contains, Seq::lemma_filter_contains_rev;

    assert(r.subrange(current.len() as int, r.len() as int) =~= added);
    assert forall|k: int| current.len() <= k < r.len() implies !has_url(
        current,
        #[trigger] r[k].url,
    ) && imported.contains(r[k]) by {
        assert(r[k] == added[k - current.len()]);
        assert(pred(added[k - current.len()]));
        assert(added.contains(r[k]));
    }
    assert forall|j: int| 0 <= j < imported.len() && !has_url(current, imported[j].url) implies #[trigger] added.contains(
        imported[j],
    ) by {
        assert(pred(imported[j]));
    }
}

/// Refreshing never changes the number of entries nor their URLs, and an
/// entry whose URL has an update takes the number and title of the first
/// such update; the others stay as they are.
pub proof fn lemma_apply_updates(original: Seq<LineView>, updates: Seq<LineView>)
    ensures
        apply_updates(original, updates).len() == original.len(),
        forall|i: int|
            0 <= i < original.len() ==> {
                let r = #[trigger] apply_updates(original, updates)[i];
                let j = first_url_index(updates, original[i].url);
                &&& r.url == original[i].url
                &&& has_url(updates, original[i].url) ==> is_first_with_url(
                    updates,
                    original[i].url,
                    j,
                ) && r.last == updates[j].last && r.title == updates[j].title
                &&& !has_url(updates, original[i].url) ==> r == original[i]
            },
{
    assert forall|i: int| 0 <= i < original.len() implies {
        let r = #[trigger] apply_updates(original, updates)[i];
        let j = first_url_index(updates, original[i].url);
        &&& r.url == original[i].url
        &&& has_url(updates, original[i].url) ==> is_first_with_url(updates, original[i].url, j)
            && r.last == updates[j].last && r.title == updates[j].title
        &&& !has_url(updates, original[i].url) ==> r == original[i]
    } by {
        if has_url(updates, original[i].url) {
            lemma_first_exists(updates, original[i].url);
        }
    }
}

/// Stepping back the entry at `i` lowers its chapter by exactly one and
/// leaves its URL, its title, every other entry and the length as they were;
/// past the end nothing changes.
pub proof fn lemma_reset_at(entries: Seq<LineView>, i: int)
    ensures
        ({
            let r = reset_at(entries, i);
            &&& r.len() == entries.len()
            &&& 0 <= i < entries.len() ==> r[i].last == entries[i].last - 1000 && r[i].url
                == entries[i].url && r[i].title == entries[i].title
            &&& forall|k: int| 0 <= k < r.len() && k != i ==> #[trigger] r[k] == entries[k]
            &&& i >= entries.len() ==> r == entries
        }),
{
}

} // verus!

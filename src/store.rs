//! The store's tabular format: a header row `URL,Last chapter,Title`, then
//! one row per tracked entry.
use vstd::prelude::*;
use crate::chapter::{
    format_chapter_number, lemma_number_text_round_trip, number_of_text, number_text,
    parse_chapter_number,
};
use crate::models::{CSVLine, LineView, views, lemma_views_push};
use crate::text::{contains_text, occurs_in};

verus! {

#[verifier::external_type_specification]
#[verifier::external_body]
pub struct ExCsvError(csv::Error);

/// The rows, each a sequence of fields, that the csv crate reads from
/// `text` when no row is taken as a header; `None` when it refuses the text
/// (its records are not all of one length).
pub uninterp spec fn csv_rows_of(text: Seq<char>) -> Option<Seq<Seq<Seq<char>>>>;

/// The text that the csv crate's writer produces for `rows`.
pub uninterp spec fn csv_text_of(rows: Seq<Seq<Seq<char>>>) -> Seq<char>;

/// Relies on csv::ReaderBuilder (no header row taken apart) and its
/// records: every row of `text`, field by field. Reading a `&str` fails
/// only on records of unequal length, which the text alone decides.
#[verifier::external_body]
fn csv_rows(text: &str) -> (r: Result<Vec<Vec<String>>, csv::Error>)
    ensures
        r is Ok <==> csv_rows_of(text@) is Some,
        r matches Ok(rows) ==> csv_rows_of(text@) == Some(rows.deep_view()),
{
    let mut reader = csv::ReaderBuilder::new().has_headers(false).from_reader(text.as_bytes());
    reader.records().map(|rec| rec.map(|rec| rec.iter().map(String::from).collect())).collect()
}

/// Relies on csv::Writer::write_record and Writer::into_inner: the text of
/// `rows` written one record each. Writing into a `Vec` fails only on
/// records of unequal length.
#[verifier::external_body]
fn csv_text(rows: &Vec<Vec<String>>) -> (r: Result<String, csv::Error>)
    ensures
        r matches Ok(t) ==> t@ == csv_text_of(rows.deep_view()),
        (forall|i: int, j: int|
            0 <= i < rows.len() && 0 <= j < rows.len() ==> #[trigger] rows[i].len()
                == #[trigger] rows[j].len()) ==> r is Ok,
{
    let mut writer = csv::Writer::from_writer(Vec::new());
    for row in rows {
        writer.write_record(row)?;
    }
    let bytes = writer.into_inner().map_err(|e| csv::Error::from(e.into_error()))?;
    Ok(String::from_utf8_lossy(&bytes).into_owned())
}

/// Why the store's text cannot be read.
#[derive(Clone, Copy, Debug, PartialEq, Eq, Structural)]
pub enum StoreFormatError {
    /// The text is not well-formed CSV (rows of unequal length among them).
    Unreadable,
    /// The first row is not exactly `URL`, `Last chapter`, `Title`.
    HeaderMismatch,
    /// A row lacks a field or its chapter is not a number.
    MalformedRow,
}

pub const URL_HEADER: &'static str = "URL";

pub const CHAPTER_HEADER: &'static str = "Last chapter";

pub const TITLE_HEADER: &'static str = "Title";

/// The first row of the store.
pub open spec fn header_row() -> Seq<Seq<char>> {
    seq![URL_HEADER@, CHAPTER_HEADER@, TITLE_HEADER@]
}

/// A row holds exactly the three expected header names.
pub open spec fn is_header(row: Seq<Seq<char>>) -> bool {
    row.len() == 3 && row[0] == URL_HEADER@ && row[1] == CHAPTER_HEADER@ && row[2] == TITLE_HEADER@
}

/// The entry a row holds, if it has the three fields and a chapter number.
pub open spec fn row_entry(row: Seq<Seq<char>>) -> Option<LineView> {
    if row.len() >= 3 && number_of_text(row[1]) is Some {
        Some(LineView { url: row[0], last: number_of_text(row[1])->0, title: row[2] })
    } else {
        None
    }
}

/// The entries of the rows that follow the header, if all of them hold one.
pub open spec fn rows_entries(rows: Seq<Seq<Seq<char>>>) -> Option<Seq<LineView>>
    decreases rows.len(),
{
    if rows.len() == 0 {
        Some(Seq::empty())
    } else {
        match (rows_entries(rows.drop_last()), row_entry(rows.last())) {
            (Some(s), Some(e)) => Some(s.push(e)),
            _ => None,
        }
    }
}

/// What the store's rows hold.
pub open spec fn store_entries(rows: Seq<Seq<Seq<char>>>) -> Result<Seq<LineView>, StoreFormatError> {
    if rows.len() == 0 || !is_header(rows[0]) {
        Err(StoreFormatError::HeaderMismatch)
    } else {
        match rows_entries(rows.drop_first()) {
            Some(s) => Ok(s),
            None => Err(StoreFormatError::MalformedRow),
        }
    }
}

/// The row that holds an entry.
pub open spec fn entry_row(e: LineView) -> Seq<Seq<char>> {
    seq![e.url, number_text(e.last), e.title]
}

/// The rows of the store that holds `entries`.
pub open spec fn store_rows(entries: Seq<LineView>) -> Seq<Seq<Seq<char>>> {
    seq![header_row()] + entries.map_values(|e: LineView| entry_row(e))
}

fn same_text(a: &String, b: &str) -> (r: bool)
    ensures
        r == (a@ == b@),
{
    *a == b.to_string()
}

/// The entries that the store's rows hold: the first row must be the
/// header `URL`, `Last chapter`, `Title`; every other row gives one entry.
pub fn parse_rows(rows: &Vec<Vec<String>>) -> (r: Result<Vec<CSVLine>, StoreFormatError>)
    ensures
        match r {
            Ok(lines) => store_entries(rows.deep_view()) == Ok::<_, StoreFormatError>(
                views(lines@),
            ),
            Err(e) => store_entries(rows.deep_view()) == Err::<Seq<LineView>, _>(e),
        },
{
    let ghost rv = rows.deep_view();
    if rows.len() == 0 || rows[0].len() != 3 || !same_text(&rows[0][0], URL_HEADER) || !same_text(
        &rows[0][1],
        CHAPTER_HEADER,
    ) || !same_text(&rows[0][2], TITLE_HEADER) {
        assert(rows.len() > 0 ==> rv[0] == rows[0].deep_view());
        return Err(StoreFormatError::HeaderMismatch);
    }
    assert(rv[0] == rows[0].deep_view());
    assert(rv[0][0] == rows[0][0]@ && rv[0][1] == rows[0][1]@ && rv[0][2] == rows[0][2]@);
    assert(is_header(rv[0]));
    let ghost body = rv.drop_first();
    let mut lines: Vec<CSVLine> = Vec::new();
    let mut i: usize = 1;
    while i < rows.len()
        invariant
            1 <= i <= rows.len(),
            rv == rows.deep_view(),
            rv.len() > 0 && is_header(rv[0]),
            body == rv.drop_first(),
            rows_entries(body.take(i - 1)) == Some(views(lines@)),
        decreases rows.len() - i,
    {
        let row = &rows[i];
        assert(body[i - 1] == row.deep_view());
        assert(body[i - 1].len() == row.len());
        assert(body.take(i as int).drop_last() =~= body.take(i - 1));
        if row.len() < 3 {
            proof {
                lemma_entries_none_extends(body, i as int);
            }
            return Err(StoreFormatError::MalformedRow);
        }
        assert(body[i - 1][1] == row[1]@);
        let num = match parse_chapter_number(row[1].as_str()) {
            Some(n) => n,
            None => {
                proof {
                    lemma_entries_none_extends(body, i as int);
                }
                return Err(StoreFormatError::MalformedRow);
            },
        };
        assert(body[i - 1][0] == row[0]@ && body[i - 1][2] == row[2]@);
        let ghost prev = lines@;
        let item = CSVLine { url: row[0].clone(), last_chapter_num: num, title: row[2].clone() };
        lines.push(item);
        proof {
            lemma_views_push(prev, item);
        }
        i = i + 1;
    }
    assert(body.take(i - 1) =~= body);
    Ok(lines)
}

/// Reads the entries of the store from its text: `Unreadable` exactly when
/// the csv crate refuses it, else what `parse_rows` gives for its rows.
pub fn read_csv(text: &str) -> (r: Result<Vec<CSVLine>, StoreFormatError>)
    ensures
        (r == Err::<Vec<CSVLine>, _>(StoreFormatError::Unreadable)) <==> csv_rows_of(text@) is None,
        csv_rows_of(text@) matches Some(rows) ==> match r {
            Ok(lines) => store_entries(rows) == Ok::<_, StoreFormatError>(views(lines@)),
            Err(e) => store_entries(rows) == Err::<Seq<LineView>, _>(e),
        },
{
    match csv_rows(text) {
        Ok(rows) => parse_rows(&rows),
        Err(_) => Err(StoreFormatError::Unreadable),
    }
}

proof fn lemma_entries_none_extends(rows: Seq<Seq<Seq<char>>>, i: int)
    requires
        1 <= i <= rows.len(),
        row_entry(rows[i - 1]) is None,
    ensures
        rows_entries(rows) is None,
    decreases rows.len(),
{
    if rows.len() > i {
        lemma_entries_none_extends(rows.drop_last(), i);
    } else {
        assert(rows.last() == rows[i - 1]);
    }
}

/// The rows of the store that holds `lines`: the header, then one row per
/// entry with its chapter number written out.
pub fn store_rows_of(lines: &Vec<CSVLine>) -> (r: Vec<Vec<String>>)
    ensures
        r.deep_view() == store_rows(views(lines@)),
{
    let mut header: Vec<String> = Vec::new();
    header.push(URL_HEADER.to_string());
    header.push(CHAPTER_HEADER.to_string());
    header.push(TITLE_HEADER.to_string());
    assert(header.deep_view() =~= header_row());
    let mut rows: Vec<Vec<String>> = Vec::new();
    rows.push(header);
    let mut i: usize = 0;
    while i < lines.len()
        invariant
            i <= lines.len(),
            rows.deep_view() =~= store_rows(views(lines@)).take(i + 1),
        decreases lines.len() - i,
    {
        let line = &lines[i];
        let mut row: Vec<String> = Vec::new();
        row.push(line.url.clone());
        row.push(format_chapter_number(line.last_chapter_num));
        row.push(line.title.clone());
        assert(row.deep_view() =~= entry_row(line@));
        let ghost prev = rows.deep_view();
        rows.push(row);
        assert(rows.deep_view() =~= prev.push(entry_row(line@)));
        i = i + 1;
    }
    assert(store_rows(views(lines@)).take(i + 1) =~= store_rows(views(lines@)));
    rows
}

/// The text of the store that holds `lines`, header first.
pub fn update_csv(lines: &Vec<CSVLine>) -> (r: Result<String, StoreFormatError>)
    ensures
        r is Ok,
        r matches Ok(t) ==> t@ == csv_text_of(store_rows(views(lines@))),
{
    let rows = store_rows_of(lines);
    assert forall|i: int, j: int|
        0 <= i < rows.len() && 0 <= j < rows.len() implies #[trigger] rows[i].len()
            == #[trigger] rows[j].len() by {
        assert(rows.deep_view()[i].len() == rows[i].len());
        assert(rows.deep_view()[j].len() == rows[j].len());
        lemma_store_rows_width(views(lines@), i);
        lemma_store_rows_width(views(lines@), j);
    }
    match csv_text(&rows) {
        Ok(t) => Ok(t),
        Err(_) => Err(StoreFormatError::Unreadable),
    }
}

/// Whether the store's text mentions `url` anywhere.
pub fn is_url_present(contents: &str, url: &str) -> (r: bool)
    ensures
        r == occurs_in(contents@, url@),
{
    contains_text(contents, url)
}

/// The text of a new, empty store: its header alone.
pub fn create_file() -> (r: Result<String, StoreFormatError>)
    ensures
        r is Ok,
        r matches Ok(t) ==> t@ == csv_text_of(seq![header_row()]),
{
    let empty: Vec<CSVLine> = Vec::new();
    let r = update_csv(&empty);
    assert(store_rows(views(empty@)) =~= seq![header_row()]);
    r
}

proof fn lemma_store_rows_width(entries: Seq<LineView>, i: int)
    requires
        0 <= i < store_rows(entries).len(),
    ensures
        store_rows(entries)[i].len() == 3,
{
    if i > 0 {
        assert(store_rows(entries)[i] == entry_row(entries[i - 1]));
    }
}

/// The rows that the store writes for a set of entries give back exactly
/// those entries.
pub proof fn lemma_store_rows_round_trip(entries: Seq<LineView>)
    requires
        forall|i: int| 0 <= i < entries.len() ==> i64::MIN <= #[trigger] entries[i].last <= i64::MAX,
    ensures
        store_entries(store_rows(entries)) == Ok::<_, StoreFormatError>(entries),
    decreases entries.len(),
{
    let rows = store_rows(entries);
    assert(rows.drop_first() =~= entries.map_values(|e: LineView| entry_row(e)));
    lemma_rows_entries_of(entries);
}

proof fn lemma_rows_entries_of(entries: Seq<LineView>)
    requires
        forall|i: int| 0 <= i < entries.len() ==> i64::MIN <= #[trigger] entries[i].last <= i64::MAX,
    ensures
        rows_entries(entries.map_values(|e: LineView| entry_row(e))) == Some(entries),
    decreases entries.len(),
{
    if entries.len() > 0 {
        let rows = entries.map_values(|e: LineView| entry_row(e));
        let init = entries.drop_last();
        assert(rows.drop_last() =~= init.map_values(|e: LineView| entry_row(e)));
        lemma_rows_entries_of(init);
        let e = entries.last();
        assert(entries[entries.len() - 1] == e);
        lemma_number_text_round_trip(e.last);
        assert(rows.last() == entry_row(e));
        assert(init.push(e) =~= entries);
    }
}

} // verus!

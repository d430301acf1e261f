//! Repairing URLs that no longer lead to a series page.
use vstd::prelude::*;
use crate::models::{CSVLine, LineView, ScraperError};
use crate::text::{contains_text, occurs_here, occurs_in};

verus! {

/// The current domain.
pub const CURRENT_DOMAIN: &'static str = "manganato";

/// The mirror that the current domain moved pages to.
pub const MIRROR_DOMAIN: &'static str = "readmanganato";

/// The former domain.
pub const FORMER_DOMAIN: &'static str = "manganelo";

/// Inserted before the domain to reach the mirror.
pub const MIRROR_PREFIX: &'static str = "read";

/// Put in front of a URL that starts with the domain itself.
pub const MIRROR_SCHEME_PREFIX: &'static str = "https://read";

/// Position of the first `c` in `s`, if any.
pub open spec fn first_index(s: Seq<char>, c: char) -> Option<int>
    decreases s.len(),
{
    if s.len() == 0 {
        None
    } else if s[0] == c {
        Some(0)
    } else {
        match first_index(s.drop_first(), c) {
            Some(i) => Some(i + 1),
            None => None,
        }
    }
}

/// `s` with every occurrence of `pat`, taken from the left without overlap,
/// replaced by `rep`.
pub open spec fn replace_all(s: Seq<char>, pat: Seq<char>, rep: Seq<char>) -> Seq<char>
    decreases s.len(),
{
    if pat.len() == 0 || s.len() < pat.len() {
        s
    } else if s.take(pat.len() as int) == pat {
        rep + replace_all(s.skip(pat.len() as int), pat, rep)
    } else {
        seq![s[0]] + replace_all(s.drop_first(), pat, rep)
    }
}

/// The candidate URL for a page that moved: on the current domain (and not
/// yet on its mirror) the mirror prefix goes in front of the first `'m'`
/// (or `https://read` in front of the whole URL when it starts with `'m'`);
/// on the former domain, that domain is replaced by the current one.
pub open spec fn alternate_url(url: Seq<char>) -> Option<Seq<char>> {
    if occurs_in(url, CURRENT_DOMAIN@) && !occurs_in(url, MIRROR_DOMAIN@) {
        match first_index(url, 'm') {
            Some(i) => if i == 0 {
                Some(MIRROR_SCHEME_PREFIX@ + url)
            } else {
                Some(url.take(i) + MIRROR_PREFIX@ + url.skip(i))
            },
            None => None,
        }
    } else if occurs_in(url, FORMER_DOMAIN@) {
        Some(replace_all(url, FORMER_DOMAIN@, CURRENT_DOMAIN@))
    } else {
        None
    }
}

proof fn lemma_first_index_scan(s: Seq<char>, c: char, j: int)
    requires
        0 <= j <= s.len(),
        forall|k: int| 0 <= k < j ==> s[k] != c,
    ensures
        j < s.len() && s[j] == c ==> first_index(s, c) == Some(j),
        j == s.len() ==> first_index(s, c) is None,
    decreases j,
{
    if j > 0 {
        assert forall|k: int| 0 <= k < j - 1 implies s.drop_first()[k] != c by {
            assert(s[k + 1] != c);
        }
        lemma_first_index_scan(s.drop_first(), c, j - 1);
    } else if s.len() > 0 {
    }
}

/// Position of the first `c` in `s`.
fn find_char(s: &str, c: char) -> (r: Option<usize>)
    ensures
        r is Some == first_index(s@, c) is Some,
        r matches Some(j) ==> first_index(s@, c) == Some(j as int) && j < s@.len(),
{
    let n = s.unicode_len();
    let mut j: usize = 0;
    while j < n
        invariant
            j <= n,
            n == s@.len(),
            forall|k: int| 0 <= k < j ==> s@[k] != c,
        decreases n - j,
    {
        if s.get_char(j) == c {
            proof {
                lemma_first_index_scan(s@, c, j as int);
            }
            return Some(j);
        }
        j = j + 1;
    }
    proof {
        lemma_first_index_scan(s@, c, j as int);
    }
    None
}

/// `s` with every occurrence of `pat`, from the left and without overlap,
/// replaced by `rep`.
pub fn replace_text(s: &str, pat: &str, rep: &str) -> (r: String)
    requires
        pat@.len() > 0,
    ensures
        r@ == replace_all(s@, pat@, rep@),
{
    let n = s.unicode_len();
    let m = pat.unicode_len();
    let mut out = String::new();
    let mut i: usize = 0;
    assert(s@.skip(0) =~= s@);
    while i < n
        invariant
            i <= n,
            n == s@.len(),
            m == pat@.len(),
            m > 0,
            out@ + replace_all(s@.skip(i as int), pat@, rep@) == replace_all(s@, pat@, rep@),
        decreases n - i,
    {
        let ghost rest = s@.skip(i as int);
        if m <= n - i && occurs_here(s, pat, i) {
            assert(rest.take(m as int) =~= s@.subrange(i as int, i + m));
            assert(rest.skip(m as int) =~= s@.skip(i + m));
            out.append(rep);
            assert(out@ + replace_all(s@.skip(i + m), pat@, rep@) =~= replace_all(s@, pat@, rep@));
            i = i + m;
        } else {
            if m <= n - i {
                assert(rest.take(m as int) =~= s@.subrange(i as int, i + m));
            }
            let one = s.substring_char(i, i + 1);
            assert(rest.drop_first() =~= s@.skip(i + 1));
            assert(one@ =~= seq![rest[0]]);
            out.append(one);
            assert(out@ + replace_all(s@.skip(i + 1), pat@, rep@) =~= replace_all(s@, pat@, rep@));
            i = i + 1;
        }
    }
    assert(s@.skip(i as int) =~= Seq::<char>::empty());
    assert(out@ + Seq::<char>::empty() =~= out@);
    out
}

/// The candidate URL for a series page that moved, or `None` when no rule
/// applies.
pub fn create_new_url(url: &str) -> (r: Option<String>)
    ensures
        match alternate_url(url@) {
            Some(u) => r matches Some(s) && s@ == u,
            None => r is None,
        },
{
    if contains_text(url, CURRENT_DOMAIN) && !contains_text(url, MIRROR_DOMAIN) {
        match find_char(url, 'm') {
            Some(index) => {
                if index == 0 {
                    let mut r = String::new();
                    r.append(MIRROR_SCHEME_PREFIX);
                    r.append(url);
                    Some(r)
                } else {
                    let mut r = String::new();
                    r.append(url.substring_char(0, index));
                    r.append(MIRROR_PREFIX);
                    r.append(url.substring_char(index, url.unicode_len()));
                    assert(r@ =~= url@.take(index as int) + MIRROR_PREFIX@ + url@.skip(index as int));
                    Some(r)
                }
            },
            None => None,
        }
    } else if contains_text(url, FORMER_DOMAIN) {
        proof {
            reveal_strlit("manganelo");
        }
        Some(replace_text(url, FORMER_DOMAIN, CURRENT_DOMAIN))
    } else {
        None
    }
}

/// What to do about a tracked URL once its page has been checked.
#[derive(Debug)]
pub enum Repair {
    /// The page is there, or could not be checked: the entry stays.
    Keep,
    /// The page is gone; this candidate URL is to be checked in its place.
    TryCandidate(String),
    /// The page is gone and no candidate exists: the operator is to give one.
    AskOperator,
}

/// Decides what to do about `line` from the check of its page (`Ok(true)`
/// when the page is the host's "not found" page).
pub fn plan_repair(line: &CSVLine, check: &Result<bool, ScraperError>) -> (r: Repair)
    ensures
        check != Ok::<bool, ScraperError>(true) ==> r is Keep,
        check == Ok::<bool, ScraperError>(true) ==> match alternate_url(line.url@) {
            Some(u) => r matches Repair::TryCandidate(c) && c@ == u,
            None => r is AskOperator,
        },
{
    match check {
        Ok(true) => match create_new_url(line.url.as_str()) {
            Some(candidate) => Repair::TryCandidate(candidate),
            None => Repair::AskOperator,
        },
        _ => Repair::Keep,
    }
}

/// `line` moved to `url`, with its chapter and title kept.
pub fn with_url(line: &CSVLine, url: String) -> (r: CSVLine)
    ensures
        r@ == (LineView { url: url@, ..line@ }),
{
    CSVLine { url, last_chapter_num: line.last_chapter_num, title: line.title.clone() }
}

/// The entry moved to `candidate` when the check of the candidate's page
/// found it there (`Ok(false)`); `None` when it is gone too or could not be
/// checked.
pub fn find_new_url(line: &CSVLine, candidate: String, check: Result<bool, ScraperError>) -> (r:
    Option<CSVLine>)
    ensures
        (check == Ok::<bool, ScraperError>(false)) <==> r is Some,
        r matches Some(l) ==> l@ == (LineView { url: candidate@, ..line@ }),
{
    match check {
        Ok(false) => Some(with_url(line, candidate)),
        _ => None,
    }
}

/// The URL that the operator's answer gives: the old one when the answer
/// is empty or could not be read.
pub fn ask_user_new_url(old_url: String, answer: Option<String>) -> (r: String)
    ensures
        r@ == match answer {
            Some(a) => if a@.len() > 0 {
                a@
            } else {
                old_url@
            },
            None => old_url@,
        },
{
    match answer {
        Some(a) => {
            if a.as_str().unicode_len() == 0 {
                old_url
            } else {
                a
            }
        },
        None => old_url,
    }
}

} // verus!

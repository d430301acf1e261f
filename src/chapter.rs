//! Chapter numbers as exact fixed-point decimals, and their text form.
use vstd::prelude::*;

verus! {

/// Number of fixed-point units in one whole chapter.
pub const UNITS_PER_CHAPTER: i64 = 1000;

/// Largest whole part that a chapter number can have.
pub const MAX_WHOLE: i64 = 9223372036854775;

/// A chapter number, held exactly in thousandths of a chapter
/// (`74.5` is `74500`).
#[derive(Clone, Copy, Debug, PartialEq, Eq, Structural)]
pub struct ChapterNumber {
    pub milli: i64,
}

pub open spec fn is_digit(c: char) -> bool {
    '0' <= c && c <= '9'
}

pub open spec fn digit_value(c: char) -> int {
    c as int - '0' as int
}

pub open spec fn all_digits(s: Seq<char>) -> bool {
    forall|i: int| 0 <= i < s.len() ==> is_digit(#[trigger] s[i])
}

/// The value of a string of decimal digits, read most significant first.
pub open spec fn digits_value(s: Seq<char>) -> int
    decreases s.len(),
{
    if s.len() == 0 {
        0
    } else {
        digits_value(s.drop_last()) * 10 + digit_value(s.last())
    }
}

/// Thousandths given by the digits after the decimal point; digits beyond
/// the third are dropped.
pub open spec fn fraction_millis(f: Seq<char>) -> int {
    if f.len() >= 3 {
        digits_value(f.take(3))
    } else if f.len() == 2 {
        digits_value(f) * 10
    } else if f.len() == 1 {
        digits_value(f) * 100
    } else {
        0
    }
}

/// Position of the first `'.'` in `s`, or its length when there is none.
pub open spec fn point_index(s: Seq<char>) -> int
    decreases s.len(),
{
    if s.len() == 0 {
        0
    } else if s[0] == '.' {
        0
    } else {
        1 + point_index(s.drop_first())
    }
}

pub open spec fn has_sign(s: Seq<char>) -> bool {
    s.len() > 0 && (s[0] == '-' || s[0] == '+')
}

/// The text without its leading sign, if any.
pub open spec fn unsigned_part(s: Seq<char>) -> Seq<char> {
    if has_sign(s) { s.drop_first() } else { s }
}

pub open spec fn whole_digits(s: Seq<char>) -> Seq<char> {
    unsigned_part(s).take(point_index(unsigned_part(s)))
}

pub open spec fn fraction_digits(s: Seq<char>) -> Seq<char> {
    let u = unsigned_part(s);
    if point_index(u) < u.len() { u.skip(point_index(u) + 1) } else { Seq::empty() }
}

/// `s` is a decimal number: an optional sign, digits, and optionally a point
/// followed by digits, with at least one digit in all.
pub open spec fn is_number_text(s: Seq<char>) -> bool {
    &&& all_digits(whole_digits(s))
    &&& all_digits(fraction_digits(s))
    &&& whole_digits(s).len() + fraction_digits(s).len() > 0
}

/// The chapter number, in thousandths, that text reads as, when it is a
/// decimal number that a chapter number can hold.
pub open spec fn number_of_text(s: Seq<char>) -> Option<int> {
    if is_number_text(s) && digits_value(whole_digits(s)) <= MAX_WHOLE && i64::MIN
        <= signed_millis(s) <= i64::MAX {
        Some(signed_millis(s))
    } else {
        None
    }
}

/// The thousandths that decimal text stands for, sign included.
pub open spec fn signed_millis(s: Seq<char>) -> int {
    let m = digits_value(whole_digits(s)) * 1000 + fraction_millis(fraction_digits(s));
    if s.len() > 0 && s[0] == '-' { -m } else { m }
}

impl ChapterNumber {
    pub open spec fn value(self) -> int {
        self.milli as int
    }

    /// The whole chapter `n`.
    pub fn whole(n: i32) -> (r: ChapterNumber)
        ensures
            r.value() == n * 1000,
    {
        ChapterNumber { milli: n as i64 * UNITS_PER_CHAPTER }
    }
}


proof fn lemma_point_index(t: Seq<char>, k: int)
    requires
        0 <= k <= t.len(),
        forall|j: int| 0 <= j < k ==> t[j] != '.',
    ensures
        k <= point_index(t) <= t.len(),
        (k == t.len() || t[k] == '.') ==> point_index(t) == k,
    decreases t.len(),
{
    if t.len() > 0 && t[0] != '.' {
        let k2 = if k > 0 { k - 1 } else { 0 };
        assert forall|j: int| 0 <= j < k2 implies t.drop_first()[j] != '.' by {
            assert(t[j + 1] != '.');
        }
        lemma_point_index(t.drop_first(), k2);
    }
}

pub proof fn lemma_digits_step(t: Seq<char>, k: int)
    requires
        0 <= k < t.len(),
    ensures
        digits_value(t.take(k + 1)) == digits_value(t.take(k)) * 10 + digit_value(t[k]),
{
    assert(t.take(k + 1).drop_last() =~= t.take(k));
}

pub proof fn lemma_digits_nonneg(t: Seq<char>)
    requires
        all_digits(t),
    ensures
        digits_value(t) >= 0,
    decreases t.len(),
{
    if t.len() > 0 {
        lemma_digits_nonneg(t.drop_last());
    }
}

pub proof fn lemma_digits_prefix_le(t: Seq<char>, k: int)
    requires
        all_digits(t),
        0 <= k <= t.len(),
    ensures
        digits_value(t.take(k)) <= digits_value(t),
    decreases t.len(),
{
    if k == t.len() {
        assert(t.take(k) =~= t);
    } else {
        let d = t.drop_last();
        lemma_digits_prefix_le(d, k);
        lemma_digits_nonneg(d);
        assert(d.take(k) =~= t.take(k));
    }
}

/// Reads the digits of `s` from `from` up to the first point or the end:
/// their value and the position where they stop.
fn read_whole(s: &str, from: usize) -> (r: Option<(i64, usize)>)
    requires
        from <= s@.len(),
    ensures
        ({
            let u = s@.skip(from as int);
            let w = u.take(point_index(u));
            &&& r.is_some() == (all_digits(w) && digits_value(w) <= MAX_WHOLE)
            &&& r matches Some((v, end)) ==> v == digits_value(w) && end == from + point_index(u)
                && 0 <= v <= MAX_WHOLE
        }),
{
    let n = s.unicode_len();
    let ghost u = s@.skip(from as int);
    let mut i: usize = from;
    let mut whole: i64 = 0;
    while i < n && s.get_char(i) != '.'
        invariant
            from <= i <= n,
            n == s@.len(),
            u == s@.skip(from as int),
            0 <= whole <= MAX_WHOLE,
            forall|j: int| 0 <= j < i - from ==> u[j] != '.' && is_digit(#[trigger] u[j]),
            whole == digits_value(u.take(i - from)),
        decreases n - i,
    {
        let c = s.get_char(i);
        assert(u[i - from] == c);
        proof {
            lemma_point_index(u, i - from + 1);
        }
        let ghost w = u.take(point_index(u));
        if !('0' <= c && c <= '9') {
            assert(w[i - from] == c);
            return None;
        }
        proof {
            lemma_digits_step(u, i - from);
        }
        whole = whole * 10 + (c as i64 - '0' as i64);
        i = i + 1;
        if whole > MAX_WHOLE {
            proof {
                if all_digits(w) {
                    assert(w.take(i - from) =~= u.take(i - from));
                    lemma_digits_prefix_le(w, i - from);
                }
            }
            return None;
        }
    }
    proof {
        lemma_point_index(u, i - from);
        assert(u.take(point_index(u)) =~= u.take(i - from));
    }
    Some((whole, i))
}

/// Reads the digits of `s` from `from` to the end as thousandths.
fn read_fraction(s: &str, from: usize) -> (r: Option<(i64, usize)>)
    requires
        from <= s@.len(),
    ensures
        r.is_some() == all_digits(s@.skip(from as int)),
        r matches Some((v, count)) ==> v == fraction_millis(s@.skip(from as int)) && count
            == s@.len() - from && 0 <= v < 1000,
{
    let n = s.unicode_len();
    let ghost f = s@.skip(from as int);
    let mut i: usize = from;
    let mut fraction: i64 = 0;
    let mut count: usize = 0;
    while i < n
        invariant
            from <= i <= n,
            n == s@.len(),
            f == s@.skip(from as int),
            count == i - from,
            forall|j: int| 0 <= j < count ==> is_digit(#[trigger] f[j]),
            count <= 3 ==> fraction == digits_value(f.take(count as int)),
            count > 3 ==> fraction == digits_value(f.take(3)),
            count == 0 ==> fraction == 0,
            count == 1 ==> fraction < 10,
            count == 2 ==> fraction < 100,
            0 <= fraction < 1000,
        decreases n - i,
    {
        let c = s.get_char(i);
        assert(f[count as int] == c);
        if !('0' <= c && c <= '9') {
            return None;
        }
        if count < 3 {
            proof {
                lemma_digits_step(f, count as int);
            }
            fraction = fraction * 10 + (c as i64 - '0' as i64);
        }
        count = count + 1;
        i = i + 1;
    }
    assert(f.take(count as int) =~= f);
    if count == 1 {
        fraction = fraction * 100;
    } else if count == 2 {
        fraction = fraction * 10;
    }
    Some((fraction, count))
}

/// Reads a chapter number from decimal text (`"74"`, `"74.5"`, `"-2"`).
pub fn parse_chapter_number(s: &str) -> (r: Option<ChapterNumber>)
    ensures
        r.is_some() == number_of_text(s@).is_some(),
        r matches Some(n) ==> n.value() == number_of_text(s@)->0,
{
    let n = s.unicode_len();
    let ghost t = s@;
    let mut start: usize = 0;
    let mut negative = false;
    if n > 0 {
        let c = s.get_char(0);
        if c == '-' || c == '+' {
            start = 1;
            negative = c == '-';
        }
    }
    let ghost u = unsigned_part(t);
    assert(u =~= t.skip(start as int));
    assert(negative == (t.len() > 0 && t[0] == '-'));
    let (whole, point) = match read_whole(s, start) {
        Some(w) => w,
        None => {
            return None;
        },
    };
    proof {
        lemma_point_index(u, 0);
    }
    let mut fraction: i64 = 0;
    let mut frac_count: usize = 0;
    if point < n {
        assert(fraction_digits(t) =~= t.skip(point + 1));
        match read_fraction(s, point + 1) {
            Some((v, c)) => {
                fraction = v;
                frac_count = c;
            },
            None => {
                return None;
            },
        }
    } else {
        assert(fraction_digits(t) =~= Seq::<char>::empty());
    }
    if (point - start) + frac_count == 0 {
        return None;
    }
    proof {
        lemma_digits_nonneg(whole_digits(t));
    }
    let magnitude: i128 = whole as i128 * 1000 + fraction as i128;
    let milli: i128 = if negative { -magnitude } else { magnitude };
    if milli < i64::MIN as i128 || milli > i64::MAX as i128 {
        return None;
    }
    Some(ChapterNumber { milli: milli as i64 })
}

/// The decimal digits, in order of value.
pub const DIGITS: &'static str = "0123456789";

/// The decimal text of `v`, without leading zeros.
pub open spec fn nat_text(v: nat) -> Seq<char>
    decreases v,
{
    if v < 10 {
        seq![DIGITS@[v as int]]
    } else {
        nat_text(v / 10).push(DIGITS@[(v % 10) as int])
    }
}

/// The digits of a nonzero number of thousandths `f`, trailing zeros left
/// out.
pub open spec fn fraction_text(f: nat) -> Seq<char> {
    let d1 = DIGITS@[(f / 100) as int];
    let d2 = DIGITS@[((f / 10) % 10) as int];
    let d3 = DIGITS@[(f % 10) as int];
    if f % 100 == 0 {
        seq![d1]
    } else if f % 10 == 0 {
        seq![d1, d2]
    } else {
        seq![d1, d2, d3]
    }
}

/// The text of the chapter number of `m` thousandths: `"74"`, `"74.5"`,
/// `"-0.25"`.
pub open spec fn number_text(m: int) -> Seq<char> {
    let a = if m < 0 { -m } else { m };
    let whole = nat_text((a / 1000) as nat);
    let body = if a % 1000 == 0 {
        whole
    } else {
        whole + seq!['.'] + fraction_text((a % 1000) as nat)
    };
    if m < 0 { seq!['-'] + body } else { body }
}

fn push_digit(r: &mut String, d: u64)
    requires
        d < 10,
    ensures
        final(r)@ == old(r)@.push(DIGITS@[d as int]),
{
    proof {
        reveal_strlit("0123456789");
    }
    let one = DIGITS.substring_char(d as usize, d as usize + 1);
    assert(one@ =~= seq![DIGITS@[d as int]]);
    r.append(one);
}

fn push_nat(r: &mut String, v: u64)
    ensures
        final(r)@ == old(r)@ + nat_text(v as nat),
    decreases v,
{
    if v >= 10 {
        push_nat(r, v / 10);
    }
    push_digit(r, v % 10);
    assert(final(r)@ =~= old(r)@ + nat_text(v as nat));
}

/// The text of a chapter number, as the store holds it.
pub fn format_chapter_number(n: ChapterNumber) -> (r: String)
    ensures
        r@ == number_text(n.value()),
{
    let negative = n.milli < 0;
    let a: u64 = if negative { (0i128 - n.milli as i128) as u64 } else { n.milli as u64 };
    let whole = a / 1000;
    let frac = a % 1000;
    let mut r = String::new();
    if negative {
        r.append("-");
    }
    push_nat(&mut r, whole);
    if frac != 0 {
        r.append(".");
        push_digit(&mut r, frac / 100);
        if frac % 100 != 0 {
            push_digit(&mut r, (frac / 10) % 10);
            if frac % 10 != 0 {
                push_digit(&mut r, frac % 10);
            }
        }
    }
    proof {
        reveal_strlit("-");
        reveal_strlit(".");
    }
    assert(r@ =~= number_text(n.value()));
    r
}

proof fn lemma_digit_chars()
    ensures
        DIGITS@.len() == 10,
        forall|d: int|
            0 <= d < 10 ==> is_digit(#[trigger] DIGITS@[d]) && digit_value(DIGITS@[d]) == d,
{
    reveal_strlit("0123456789");
}

proof fn lemma_nat_text(v: nat)
    ensures
        nat_text(v).len() > 0,
        all_digits(nat_text(v)),
        digits_value(nat_text(v)) == v,
    decreases v,
{
    lemma_digit_chars();
    if v >= 10 {
        lemma_nat_text(v / 10);
        let t = nat_text(v);
        assert(t.drop_last() =~= nat_text(v / 10));
        assert(t.last() == DIGITS@[(v % 10) as int]);
        assert(digits_value(t) == digits_value(nat_text(v / 10)) * 10 + digit_value(t.last()));
        assert((v / 10) * 10 + v % 10 == v);
    } else {
        let t = nat_text(v);
        assert(t.drop_last() =~= Seq::<char>::empty());
        assert(digits_value(t) == digits_value(t.drop_last()) * 10 + digit_value(t.last()));
    }
}

proof fn lemma_fraction_text(f: nat)
    requires
        0 < f < 1000,
    ensures
        all_digits(fraction_text(f)),
        fraction_millis(fraction_text(f)) == f,
{
    lemma_digit_chars();
    let t = fraction_text(f);
    reveal_with_fuel(digits_value, 4);
    assert(t.take(1).drop_last() =~= Seq::<char>::empty());
    if t.len() >= 2 {
        assert(t.take(2).drop_last() =~= t.take(1));
    }
    if t.len() == 3 {
        assert(t.take(3) =~= t);
        assert(t.take(3).drop_last() =~= t.take(2));
    } else if t.len() == 2 {
        assert(t.take(2) =~= t);
    } else {
        assert(t.take(1) =~= t);
    }
}

/// Every chapter number reads back, from the text that the store writes
/// for it, as the same number.
pub proof fn lemma_number_text_round_trip(m: int)
    requires
        i64::MIN <= m <= i64::MAX,
    ensures
        number_of_text(number_text(m)) == Some(m),
{
    let a = if m < 0 { -m } else { m };
    let whole = nat_text((a / 1000) as nat);
    lemma_nat_text((a / 1000) as nat);
    lemma_digit_chars();
    let body = if a % 1000 == 0 {
        whole
    } else {
        whole + seq!['.'] + fraction_text((a % 1000) as nat)
    };
    let s = number_text(m);
    assert(is_digit(whole[0]));
    assert(body[0] == whole[0]);
    assert(unsigned_part(s) =~= body) by {
        if m < 0 {
            assert(s.drop_first() =~= body);
        }
    }
    assert forall|j: int| 0 <= j < whole.len() implies body[j] != '.' by {
        assert(body[j] == whole[j]);
        assert(is_digit(whole[j]));
    }
    lemma_point_index(body, whole.len() as int);
    assert(whole_digits(s) =~= whole);
    if a % 1000 == 0 {
        assert(fraction_digits(s) =~= Seq::<char>::empty());
    } else {
        let f = fraction_text((a % 1000) as nat);
        lemma_fraction_text((a % 1000) as nat);
        assert(fraction_digits(s) =~= f);
    }
}

} // verus!

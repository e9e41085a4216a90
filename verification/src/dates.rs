//! Publication dates: text such as `2020-05-01`, of which the reports read
//! the year.

use vstd::prelude::*;

verus! {

/// Whether `c` is one of the digits `0` to `9`.
pub open spec fn is_digit(c: char) -> bool {
    '0' <= c && c <= '9'
}

/// The number that the decimal digits of `s` spell; zero for no digits.
pub open spec fn digits_value(s: Seq<char>) -> int
    decreases s.len(),
{
    if s.len() == 0 {
        0
    } else {
        digits_value(s.drop_last()) * 10 + (s.last() as int - 48)
    }
}

/// The length of the year field of `date`: the characters before the first
/// `-`, counted from position `from`.
pub open spec fn year_end(date: Seq<char>, from: int) -> int
    decreases date.len() - from,
{
    if from < 0 || from >= date.len() || date[from] == '-' {
        from
    } else {
        year_end(date, from + 1)
    }
}

/// The year field of `date`: what stands before the first `-`.
pub open spec fn year_field(date: Seq<char>) -> Seq<char> {
    date.take(year_end(date, 0))
}

/// The year of `date`: its year field read as a decimal number, where that
/// field is one or more digits and the number fits in an `i32`.
pub open spec fn year_of(date: Seq<char>) -> Option<i32> {
    let field = year_field(date);
    if field.len() > 0 && (forall|i: int| 0 <= i < field.len() ==> is_digit(#[trigger] field[i]))
        && digits_value(field) <= i32::MAX {
        Some(digits_value(field) as i32)
    } else {
        None
    }
}

/// The year of an optional date.
pub open spec fn year_of_opt(date: Option<Seq<char>>) -> Option<i32> {
    match date {
        Some(d) => year_of(d),
        None => None,
    }
}

/// The year field ends within the date, at its first `-` if it has one.
pub proof fn lemma_year_end_bounds(date: Seq<char>, from: int)
    requires
        0 <= from <= date.len(),
    ensures
        from <= year_end(date, from) <= date.len(),
        forall|i: int| from <= i < year_end(date, from) ==> date[i] != '-',
        year_end(date, from) < date.len() ==> date[year_end(date, from)] == '-',
    decreases date.len() - from,
{
    if from < date.len() && date[from] != '-' {
        lemma_year_end_bounds(date, from + 1);
    }
}

proof fn lemma_digits_grow(s: Seq<char>, k: int)
    requires
        0 <= k <= s.len(),
        forall|i: int| 0 <= i < s.len() ==> is_digit(#[trigger] s[i]),
    ensures
        0 <= digits_value(s.take(k)) <= digits_value(s),
    decreases s.len() - k,
{
    if k == s.len() {
        assert(s.take(k) =~= s);
        lemma_digits_nonnegative(s);
    } else {
        lemma_digits_grow(s, k + 1);
        assert(s.take(k + 1).drop_last() =~= s.take(k));
        assert(is_digit(s[k]));
        lemma_digits_nonnegative(s.take(k));
    }
}

proof fn lemma_digits_nonnegative(s: Seq<char>)
    requires
        forall|i: int| 0 <= i < s.len() ==> is_digit(#[trigger] s[i]),
    ensures
        0 <= digits_value(s),
    decreases s.len(),
{
    if s.len() > 0 {
        assert(is_digit(s[s.len() - 1]));
        lemma_digits_nonnegative(s.drop_last());
    }
}

/// The year of `date`, if it has one.
pub fn parse_year(date: &Vec<char>) -> (out: Option<i32>)
    ensures
        out == year_of(date@),
{
    let mut value: i32 = 0;
    let mut i: usize = 0;
    proof {
        lemma_year_end_bounds(date@, 0);
    }
    while i < date.len() && date[i] != '-'
        invariant
            i <= date.len(),
            year_end(date@, 0) == year_end(date@, i as int),
            forall|k: int| 0 <= k < i ==> is_digit(#[trigger] date@[k]),
            value == digits_value(date@.take(i as int)),
            0 <= value,
        decreases date.len() - i,
    {
        let c = date[i];
        proof {
            lemma_year_end_bounds(date@, i as int + 1);
            assert(date@.take(i as int + 1).drop_last() =~= date@.take(i as int));
        }
        let ghost field = year_field(date@);
        if !('0' <= c && c <= '9') {
            proof {
                assert(field[i as int] == c);
            }
            return None;
        }
        let digit: i32 = (c as u8 - 48) as i32;
        if value > (i32::MAX - digit) / 10 {
            proof {
                let end = year_end(date@, 0);
                if forall|k: int| 0 <= k < field.len() ==> is_digit(#[trigger] field[k]) {
                    lemma_digits_grow(field, i as int + 1);
                    assert(field.take(i as int + 1) =~= date@.take(i as int + 1));
                }
            }
            return None;
        }
        value = value * 10 + digit;
        i += 1;
    }
    proof {
        assert(year_end(date@, i as int) == i);
        let field = year_field(date@);
        assert(field =~= date@.take(i as int));
    }
    if i == 0 {
        None
    } else {
        Some(value)
    }
}

} // verus!

//! Reading dates written as a number `yyyymmdd` / `yymmdd`, or as three
//! numbers separated by `-`, `.`, `/` or a space.
use crate::calendar::{valid_ymd, Date, MAX_YEAR, MIN_YEAR};
use vstd::prelude::*;
use vstd::string::*;

verus! {

/// The year that the leading part `y_part` of a date number stands for.
/// With `short_year`, a part below 100 is a two-digit year: below 70 it is
/// read in the 2000s, otherwise in the 1900s.
pub open spec fn window_year(y_part: int, short_year: bool) -> int {
    if short_year && y_part < 100 {
        if y_part < 70 {
            y_part + 2000
        } else {
            y_part + 1900
        }
    } else {
        y_part
    }
}

/// The date that `v` spells as `year * 10000 + month * 100 + day`, if it
/// is a valid one. A negative number spells none.
pub open spec fn number_date(v: int, short_year: bool) -> Option<Date> {
    if v < 0 {
        None
    } else {
        let y = window_year(v / 10000, short_year);
        let m = v / 100 % 100;
        let d = v % 100;
        if valid_ymd(y, m, d) && MIN_YEAR <= y <= MAX_YEAR {
            Some(Date { year: y as i32, month: m as u32, day: d as u32 })
        } else {
            None
        }
    }
}

/// The date that `v` spells; see [`number_date`].
fn date_of_number(v: i64, short_year: bool) -> (r: Option<Date>)
    ensures
        r == number_date(v as int, short_year),
{
    if v < 0 {
        return None;
    }
    let day: i64 = v % 100;
    let month: i64 = v / 100 % 100;
    let y_part: i64 = v / 10000;
    let year: i64 = if short_year && y_part < 100 {
        if y_part < 70 {
            y_part + 2000
        } else {
            y_part + 1900
        }
    } else {
        y_part
    };
    if year > MAX_YEAR as i64 {
        return None;
    }
    Date::from_ymd_opt(year as i32, month as u32, day as u32)
}

/// The date that the integer `x` spells as `yyyymmdd`; with `short_year`, a
/// six-digit `yymmdd` too (see [`window_year`]). `None` if it is no valid date.
pub fn int2date(x: i32, short_year: bool) -> (r: Option<Date>)
    ensures
        r == number_date(x as int, short_year),
{
    date_of_number(x as i64, short_year)
}

/// `c` separates the three numbers of a written date.
pub open spec fn is_delim(c: char) -> bool {
    c == '-' || c == '.' || c == '/' || c == ' '
}

/// Value of a non-empty run of decimal digits.
pub open spec fn digits_value(s: Seq<char>) -> int
    decreases s.len(),
{
    if s.len() == 0 {
        0
    } else {
        10 * digits_value(s.drop_last()) + (s.last() as int - '0' as int)
    }
}

/// `s` is a non-empty run of decimal digits.
pub open spec fn all_digits(s: Seq<char>) -> bool {
    s.len() > 0 && forall|i: int| 0 <= i < s.len() ==> '0' <= #[trigger] s[i] <= '9'
}

/// Value of an optional `+` or `-` followed by decimal digits.
pub open spec fn signed_value(s: Seq<char>) -> Option<int> {
    if s.len() > 0 && s[0] == '-' && all_digits(s.drop_first()) {
        Some(-digits_value(s.drop_first()))
    } else if s.len() > 0 && s[0] == '+' && all_digits(s.drop_first()) {
        Some(digits_value(s.drop_first()))
    } else if all_digits(s) {
        Some(digits_value(s))
    } else {
        None
    }
}

/// The `i32` that `s` writes in decimal, if it writes one within range.
pub open spec fn parsed_i32(s: Seq<char>) -> Option<i32> {
    match signed_value(s) {
        Some(v) => if i32::MIN <= v <= i32::MAX {
            Some(v as i32)
        } else {
            None
        },
        None => None,
    }
}

/// Relies on std's `str::parse::<i32>`: an optional sign and decimal digits,
/// nothing else, with a value that fits.
#[verifier::external_body]
fn parse_i32(s: &str) -> (r: Option<i32>)
    ensures
        r == parsed_i32(s@),
{
    s.parse::<i32>().ok()
}

/// The delimiters of `s` stand at `i` and `j`, and nowhere else.
pub open spec fn splits_in_three(s: Seq<char>, i: int, j: int) -> bool {
    &&& 0 <= i < j < s.len()
    &&& is_delim(s[i])
    &&& is_delim(s[j])
    &&& forall|k: int| 0 <= k < s.len() && k != i && k != j ==> !is_delim(#[trigger] s[k])
}

/// The date written as year, month and day around the delimiters at `i` and
/// `j`. A year of at most two characters is a two-digit year.
pub open spec fn fields_date(s: Seq<char>, i: int, j: int) -> Option<Date> {
    let (a, b, c) = (s.subrange(0, i), s.subrange(i + 1, j), s.subrange(j + 1, s.len() as int));
    match (parsed_i32(a), parsed_i32(b), parsed_i32(c)) {
        (Some(y), Some(m), Some(d)) => number_date(y * 10000 + m * 100 + d, a.len() <= 2),
        _ => None,
    }
}

/// The date that the text `s` writes: a whole number, or else three numbers
/// separated by two delimiters.
pub open spec fn text_date(s: Seq<char>) -> Option<Date> {
    match parsed_i32(s) {
        Some(v) => number_date(v as int, true),
        None => if exists|i: int, j: int| splits_in_three(s, i, j) {
            let (i, j) = choose|i: int, j: int| splits_in_three(s, i, j);
            fields_date(s, i, j)
        } else {
            None
        },
    }
}

/// The date that the text `x` writes (`"980308"`, `"1998-03-08"`,
/// `"98/3/8"`, ...), or `None` when it writes none.
pub fn str2date(x: &str) -> (r: Option<Date>)
    ensures
        r == text_date(x@),
{
    if let Some(v) = parse_i32(x) {
        return int2date(v, true);
    }
    let n = x.unicode_len();
    let ghost s = x@;
    let mut count: usize = 0;
    let mut i: usize = 0;
    let mut j: usize = 0;
    let mut k: usize = 0;
    while k < n
        invariant
            n == s.len(),
            s == x@,
            parsed_i32(s) is None,
            0 <= k <= n,
            count <= 2,
            count >= 1 ==> i < k && is_delim(s[i as int]),
            count >= 2 ==> i < j < k && is_delim(s[j as int]),
            forall|l: int|
                0 <= l < k && is_delim(#[trigger] s[l]) ==> (count >= 1 && l == i) || (count
                    >= 2 && l == j),
        decreases n - k,
    {
        let c = x.get_char(k);
        if c == '-' || c == '.' || c == '/' || c == ' ' {
            if count == 0 {
                i = k;
            } else if count == 1 {
                j = k;
            } else {
                proof {
                    assert forall|a: int, b: int| !splits_in_three(s, a, b) by {
                        if splits_in_three(s, a, b) {
                            assert(is_delim(s[k as int]));
                            assert(is_delim(s[i as int]));
                            assert(is_delim(s[j as int]));
                        }
                    }
                }
                return None;
            }
            count += 1;
        }
        k += 1;
    }
    if count != 2 {
        proof {
            assert forall|a: int, b: int| !splits_in_three(s, a, b) by {
                if splits_in_three(s, a, b) {
                    assert(is_delim(s[a]));
                    assert(is_delim(s[b]));
                }
            }
        }
        return None;
    }
    proof {
        assert(splits_in_three(s, i as int, j as int));
        let (a, b) = choose|a: int, b: int| splits_in_three(s, a, b);
        assert(is_delim(s[a]) && is_delim(s[b]));
        assert(a == i && b == j);
    }
    let ys = x.substring_char(0, i);
    let ms = x.substring_char(i + 1, j);
    let ds = x.substring_char(j + 1, n);
    let short_year = ys.unicode_len() <= 2;
    let year = match parse_i32(ys) {
        Some(v) => v,
        None => return None,
    };
    let month = match parse_i32(ms) {
        Some(v) => v,
        None => return None,
    };
    let day = match parse_i32(ds) {
        Some(v) => v,
        None => return None,
    };
    date_of_number(year as i64 * 10000 + month as i64 * 100 + day as i64, short_year)
}

} // verus!

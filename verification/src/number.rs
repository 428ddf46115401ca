//! Number literals: the decimal text that the scanner matches, and the form in which
//! a number's value is printed.
//!
//! A number is printed as the double nearest to it reads, always with a fractional
//! part. This module holds no floating point. It renders a number only where plain
//! decimal text gives that form: a double keeps every numeral of up to
//! [`MAX_DIGITS`] digits apart from every other, so the rendering of such a number
//! is its own digits, without the zeros that change nothing. A longer numeral is
//! for the caller to render in double precision.
use vstd::prelude::*;
use vstd::string::*;

verus! {

/// An ASCII decimal digit.
pub open spec fn is_digit(c: char) -> bool {
    '0' <= c <= '9'
}

/// Every character of `s` is a decimal digit.
pub open spec fn all_digits(s: Seq<char>) -> bool {
    forall|i: int| 0 <= i < s.len() ==> is_digit(#[trigger] s[i])
}

/// Where the decimal point of `s` stands: the index of its first `.`, or the length
/// of `s` where it has none.
pub open spec fn point(s: Seq<char>) -> int {
    match s.index_of_first('.') {
        Some(i) => i,
        None => s.len() as int,
    }
}

/// What stands before the decimal point.
pub open spec fn whole_part(s: Seq<char>) -> Seq<char> {
    s.take(point(s))
}

/// What stands after the decimal point; empty where there is no point.
pub open spec fn fraction_part(s: Seq<char>) -> Seq<char> {
    if point(s) < s.len() {
        s.skip(point(s) + 1)
    } else {
        Seq::empty()
    }
}

/// Decimal text: one or more digits, optionally followed by a point and one or more
/// digits.
pub open spec fn is_decimal(s: Seq<char>) -> bool {
    &&& whole_part(s).len() > 0
    &&& all_digits(whole_part(s))
    &&& all_digits(fraction_part(s))
    &&& point(s) < s.len() ==> fraction_part(s).len() > 0
}

/// `s` without its leading zeros, except that the last character always stays.
pub open spec fn without_leading_zeros(s: Seq<char>) -> Seq<char>
    decreases s.len(),
{
    if s.len() > 1 && s[0] == '0' {
        without_leading_zeros(s.skip(1))
    } else {
        s
    }
}

/// `s` without its trailing zeros.
pub open spec fn without_trailing_zeros(s: Seq<char>) -> Seq<char>
    decreases s.len(),
{
    if s.len() > 0 && s.last() == '0' {
        without_trailing_zeros(s.drop_last())
    } else {
        s
    }
}

/// The canonical form of decimal text: the whole part without leading zeros, a point,
/// and the fraction without trailing zeros, which is `0` where nothing else is left.
/// The form always has a fractional part: `123` becomes `123.0`, `007.50` becomes
/// `7.5`.
pub open spec fn canonical(s: Seq<char>) -> Seq<char> {
    let fraction = without_trailing_zeros(fraction_part(s));
    without_leading_zeros(whole_part(s)) + seq!['.'] + if fraction.len() == 0 {
        seq!['0']
    } else {
        fraction
    }
}

/// The most digits that a numeral can have for this module to render it.
pub const MAX_DIGITS: usize = 15;

/// The number of digits of decimal text.
pub open spec fn digits(s: Seq<char>) -> nat {
    whole_part(s).len() + fraction_part(s).len()
}

/// Whether this module renders `s`: it is decimal text of at most [`MAX_DIGITS`]
/// digits.
pub open spec fn renders(s: Seq<char>) -> bool {
    is_decimal(s) && digits(s) <= MAX_DIGITS
}

/// The printed value of the number `s`: the double nearest to it, written in plain
/// decimal with a fractional part. For a numeral that this module renders, that is
/// its canonical form. This module gives no rendering to any other text.
pub open spec fn rendering(s: Seq<char>) -> Option<Seq<char>> {
    if renders(s) {
        Some(canonical(s))
    } else {
        None
    }
}

/// A character that is a digit or a point is an ASCII character, so decimal text is
/// ASCII text.
proof fn lemma_decimal_is_ascii(s: Seq<char>)
    requires
        is_decimal(s),
    ensures
        vstd::utf8::is_ascii_chars(s),
{
    s.index_of_first_ensures('.');
    let p = point(s);
    assert forall|i: int| 0 <= i < s.len() implies '\0' <= #[trigger] s[i] <= '\u{7f}' by {
        if i < p {
            assert(s[i] == whole_part(s)[i]);
        } else if i > p {
            assert(s[i] == fraction_part(s)[i - p - 1]);
        }
    }
}

/// The end of the run of digits that starts at `from`.
fn digits_end(text: &str, from: usize, len: usize) -> (end: usize)
    requires
        text.is_ascii(),
        len == text@.len(),
        from <= len,
    ensures
        from <= end <= len,
        forall|i: int| from <= i < end ==> is_digit(#[trigger] text@[i]),
        end < len ==> !is_digit(text@[end as int]),
{
    let mut end: usize = from;
    while end < len
        invariant
            text.is_ascii(),
            len == text@.len(),
            from <= end <= len,
            forall|i: int| from <= i < end ==> is_digit(#[trigger] text@[i]),
        ensures
            from <= end <= len,
            forall|i: int| from <= i < end ==> is_digit(#[trigger] text@[i]),
            end < len ==> !is_digit(text@[end as int]),
        decreases len - end,
    {
        let b: u8 = text.get_ascii(end);
        if !('0' as u8 <= b && b <= '9' as u8) {
            break;
        }
        end += 1;
    }
    end
}

/// Tells whether `text` is decimal text.
pub fn is_decimal_text(text: &str) -> (ok: bool)
    ensures
        ok == is_decimal(text@),
{
    if !text.is_ascii() {
        proof {
            if is_decimal(text@) {
                lemma_decimal_is_ascii(text@);
            }
        }
        return false;
    }
    let len: usize = text.unicode_len();
    let whole: usize = digits_end(text, 0, len);
    proof {
        text@.index_of_first_ensures('.');
    }
    if whole == len {
        return whole > 0;
    }
    if text.get_ascii(whole) != '.' as u8 {
        proof {
            assert(whole_part(text@)[whole as int] == text@[whole as int]);
        }
        return false;
    }
    assert(point(text@) == whole);
    assert(whole_part(text@) =~= text@.take(whole as int));
    if whole == 0 {
        return false;
    }
    let end: usize = digits_end(text, whole + 1, len);
    proof {
        let fraction = fraction_part(text@);
        if end == len {
            assert forall|i: int| 0 <= i < fraction.len() implies is_digit(
                #[trigger] fraction[i],
            ) by {
                assert(fraction[i] == text@[whole + 1 + i]);
            }
        } else {
            assert(fraction[end - whole - 1] == text@[end as int]);
        }
    }
    end == len && whole + 1 < len
}

/// Where the decimal point of decimal text stands.
fn point_of(text: &str, len: usize) -> (whole: usize)
    requires
        is_decimal(text@),
        len == text@.len(),
    ensures
        whole == point(text@),
        0 < whole <= len,
        text.is_ascii(),
{
    proof {
        lemma_decimal_is_ascii(text@);
        text@.index_of_first_ensures('.');
    }
    let whole: usize = digits_end(text, 0, len);
    proof {
        if whole < len {
            if point(text@) < whole {
                assert(!is_digit(text@[point(text@)]));
            } else if point(text@) > whole {
                assert(whole_part(text@)[whole as int] == text@[whole as int]);
            }
        } else {
            if point(text@) < len {
                assert(!is_digit(text@[point(text@)]));
            }
        }
    }
    whole
}

/// Tells whether this module renders `text`.
pub fn renders_text(text: &str) -> (ok: bool)
    ensures
        ok == renders(text@),
{
    if !is_decimal_text(text) {
        return false;
    }
    let len: usize = text.unicode_len();
    let whole: usize = point_of(text, len);
    let count: usize = if whole < len {
        len - 1
    } else {
        len
    };
    count <= MAX_DIGITS
}

/// The printed value of the number `text`, where this module renders it.
pub fn render(text: &str) -> (out: Option<String>)
    ensures
        match out {
            Some(value) => rendering(text@) == Some(value@),
            None => rendering(text@) is None,
        },
{
    if renders_text(text) {
        Some(canonical_text(text))
    } else {
        None
    }
}

/// The printed value of a number that this module renders.
pub fn canonical_text(text: &str) -> (out: String)
    requires
        renders(text@),
    ensures
        rendering(text@) == Some(out@),
{
    let len: usize = text.unicode_len();
    let whole: usize = point_of(text, len);
    let fraction_start: usize = if whole < len {
        whole + 1
    } else {
        len
    };
    assert(whole_part(text@) =~= text@.subrange(0, whole as int));
    assert(fraction_part(text@) =~= text@.subrange(fraction_start as int, len as int));

    let mut first: usize = 0;
    while first + 1 < whole
        invariant
            text.is_ascii(),
            first < whole <= len == text@.len(),
            without_leading_zeros(text@.subrange(0, whole as int)) == without_leading_zeros(
                text@.subrange(first as int, whole as int),
            ),
        ensures
            first < whole,
            without_leading_zeros(text@.subrange(0, whole as int)) == text@.subrange(
                first as int,
                whole as int,
            ),
        decreases whole - first,
    {
        if text.get_ascii(first) != '0' as u8 {
            break;
        }
        assert(text@.subrange(first as int, whole as int).skip(1) =~= text@.subrange(
            first + 1,
            whole as int,
        ));
        first += 1;
    }

    let mut last: usize = len;
    while last > fraction_start
        invariant
            text.is_ascii(),
            fraction_start <= last <= len == text@.len(),
            without_trailing_zeros(text@.subrange(fraction_start as int, len as int))
                == without_trailing_zeros(text@.subrange(fraction_start as int, last as int)),
        ensures
            fraction_start <= last <= len,
            without_trailing_zeros(text@.subrange(fraction_start as int, len as int))
                == text@.subrange(fraction_start as int, last as int),
        decreases last,
    {
        if text.get_ascii(last - 1) != '0' as u8 {
            break;
        }
        assert(text@.subrange(fraction_start as int, last as int).drop_last() =~= text@.subrange(
            fraction_start as int,
            last - 1,
        ));
        last -= 1;
    }

    let mut out = String::from_str(text.substring_ascii(first, whole));
    out.append(".");
    if last == fraction_start {
        out.append("0");
    } else {
        out.append(text.substring_ascii(fraction_start, last));
    }
    proof {
        reveal_strlit(".");
        reveal_strlit("0");
        assert("."@ =~= seq!['.']);
        assert("0"@ =~= seq!['0']);
    }
    out
}

} // verus!

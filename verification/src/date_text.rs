//! The usual text of a date, and that it is read back.

use crate::dates::{date_of_fields, parsed_date, UtcDate};
use crate::digits::{all_digits, decimal_value, digit_char, lemma_digit_char_value};
use crate::text::{fields, free_of, lemma_fields_of_one, lemma_fields_of_three};
use vstd::prelude::*;

verus! {

/// The last `width` digits of `n`, with zeros where `n` has fewer.
pub open spec fn padded(n: nat, width: nat) -> Seq<char>
    decreases width,
{
    if width == 0 {
        Seq::<char>::empty()
    } else {
        padded(n / 10, (width - 1) as nat).push(digit_char((n % 10) as int))
    }
}

/// The usual text of a date: month and day in two digits, the year in four,
/// with `sep` between them.
pub open spec fn date_text(date: UtcDate, sep: char) -> Seq<char> {
    padded(date.month as nat, 2) + seq![sep] + padded(date.day as nat, 2) + seq![sep] + padded(
        date.year as nat,
        4,
    )
}

/// Whichever of the two separators is used, the same three fields give the
/// same date: a text with hyphens and the text with slashes in their place
/// are read alike.
pub proof fn lemma_separator_does_not_matter(month: Seq<char>, day: Seq<char>, year: Seq<char>)
    requires
        free_of(month, '-') && free_of(day, '-') && free_of(year, '-'),
        free_of(month, '/') && free_of(day, '/') && free_of(year, '/'),
    ensures
        parsed_date(month + seq!['-'] + day + seq!['-'] + year) == date_of_fields(
            month,
            day,
            year,
        ),
        parsed_date(month + seq!['/'] + day + seq!['/'] + year) == date_of_fields(
            month,
            day,
            year,
        ),
{
    lemma_fields_of_three(month, day, year, '-');
    lemma_fields_of_three(month, day, year, '/');
    let slashed = month + seq!['/'] + day + seq!['/'] + year;
    lemma_fields_of_one(slashed, '-');
}

/// The power of ten with `width` zeros.
pub open spec fn pow10(width: nat) -> nat
    decreases width,
{
    if width == 0 {
        1
    } else {
        10 * pow10((width - 1) as nat)
    }
}

/// A number written in `width` digits: nothing but digits, which write the
/// number if it is short enough.
pub proof fn lemma_padded(n: nat, width: nat)
    ensures
        padded(n, width).len() == width,
        all_digits(padded(n, width)),
        n < pow10(width) ==> decimal_value(padded(n, width)) == n,
    decreases width,
{
    if width > 0 {
        let s = padded(n, width);
        lemma_padded(n / 10, (width - 1) as nat);
        lemma_digit_char_value((n % 10) as int);
        assert(s.drop_last() =~= padded(n / 10, (width - 1) as nat));
    }
}

/// Every date of the calendar is read back from its usual text, with
/// hyphens and with slashes alike.
pub proof fn lemma_both_forms_parse(date: UtcDate)
    requires
        date.wf(),
    ensures
        parsed_date(date_text(date, '-')) == Some(date),
        parsed_date(date_text(date, '/')) == Some(date),
{
    let month = padded(date.month as nat, 2);
    let day = padded(date.day as nat, 2);
    let year = padded(date.year as nat, 4);
    lemma_padded(date.month as nat, 2);
    lemma_padded(date.day as nat, 2);
    lemma_padded(date.year as nat, 4);
    assert(pow10(2) == 100 && pow10(4) == 10000) by {
        reveal_with_fuel(pow10, 5);
    }
    lemma_separator_does_not_matter(month, day, year);
}

} // verus!

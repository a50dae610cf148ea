//! The percent change of a price over a run of quotes.

use vstd::arithmetic::div_mod::{
    lemma_div_multiples_vanish_quotient, lemma_fundamental_div_mod, lemma_mod_bound,
};
use vstd::prelude::*;

verus! {

/// One day's prices. Both are whole numbers of one unit, whichever it is:
/// the percent change does not depend on the unit.
#[derive(Clone, Copy, Debug, PartialEq, Eq, Structural)]
pub struct Quote {
    pub open: i64,
    pub close: i64,
}

/// The distance of `x` from zero.
pub open spec fn magnitude(x: int) -> int {
    if x < 0 {
        -x
    } else {
        x
    }
}

/// The whole number nearest to `n / d`; of two equally near, the one
/// farther from zero.
pub open spec fn round_half_away(n: int, d: int) -> int
    recommends
        d != 0,
{
    let q = (2 * magnitude(n) + magnitude(d)) / (2 * magnitude(d));
    if (n < 0) != (d < 0) {
        -q
    } else {
        q
    }
}

/// The change from `open` to `close` in percent of `open`, rounded; zero
/// where `open` is zero.
pub open spec fn percent_of(open: int, close: int) -> int {
    if open == 0 {
        0
    } else {
        round_half_away(100 * (close - open), open)
    }
}

/// The percent change over `quotes`: from the first quote's opening price to
/// the last quote's closing price; zero for no quotes.
pub open spec fn percent_change_of(quotes: Seq<Quote>) -> int {
    if quotes.len() == 0 {
        0
    } else {
        percent_of(quotes.first().open as int, quotes.last().close as int)
    }
}

/// The percent change over `quotes`. The result type holds every change
/// that prices of this width can make.
pub fn percent_change(quotes: &Vec<Quote>) -> (percent: i128)
    ensures
        percent == percent_change_of(quotes@),
{
    if quotes.len() < 1 {
        return 0;
    }
    let open: i64 = quotes[0].open;
    let close: i64 = quotes[quotes.len() - 1].close;
    if open == 0 {
        return 0;
    }
    let n: i128 = 100 * (close as i128 - open as i128);
    let size_n: u128 = if n < 0 {
        (-n) as u128
    } else {
        n as u128
    };
    let size_d: u128 = if open < 0 {
        (-(open as i128)) as u128
    } else {
        open as u128
    };
    let q: u128 = (2 * size_n + size_d) / (2 * size_d);
    assert(q <= 2 * size_n + size_d) by (nonlinear_arith)
        requires
            q == (2 * size_n + size_d) / (2 * size_d),
            size_d >= 1,
    ;
    if (n < 0) != (open < 0) {
        -(q as i128)
    } else {
        q as i128
    }
}

/// Rounding gives a nearest whole number: the rounded quotient is at most
/// one half away from `n / d`, and where it is exactly one half away it is
/// the candidate farther from zero.
pub proof fn lemma_round_half_away_nearest(n: int, d: int)
    requires
        d != 0,
    ensures
        2 * magnitude(n - round_half_away(n, d) * d) <= magnitude(d),
        2 * magnitude(n - round_half_away(n, d) * d) == magnitude(d) ==> magnitude(
            round_half_away(n, d) * d,
        ) > magnitude(n),
{
    let a = magnitude(n);
    let b = magnitude(d);
    let q = (2 * a + b) / (2 * b);
    let rest = (2 * a + b) % (2 * b);
    lemma_fundamental_div_mod(2 * a + b, 2 * b);
    lemma_mod_bound(2 * a + b, 2 * b);
    assert(2 * b * q == 2 * (q * b)) by (nonlinear_arith);
    let r = round_half_away(n, d);
    if (n < 0) != (d < 0) {
        if d < 0 {
            assert(r * d == q * b) by (nonlinear_arith)
                requires
                    r == -q,
                    d == -b,
            ;
        } else {
            assert(r * d == -(q * b)) by (nonlinear_arith)
                requires
                    r == -q,
                    d == b,
            ;
        }
    } else {
        if d < 0 {
            assert(r * d == -(q * b)) by (nonlinear_arith)
                requires
                    r == q,
                    d == -b,
            ;
        } else {
            assert(r * d == q * b) by (nonlinear_arith)
                requires
                    r == q,
                    d == b,
            ;
        }
    }
    assert(q >= 0) by (nonlinear_arith)
        requires
            2 * a + b == 2 * b * q + rest,
            0 <= rest < 2 * b,
            a >= 0,
            b > 0,
    ;
    assert(q * b >= 0) by (nonlinear_arith)
        requires
            q >= 0,
            b > 0,
    ;
}

/// The percent change does not depend on the unit of the prices: with both
/// prices multiplied by the same factor it is the same.
pub proof fn lemma_percent_of_unit(open: int, close: int, factor: int)
    requires
        factor != 0,
    ensures
        percent_of(factor * open, factor * close) == percent_of(open, close),
{
    let k = magnitude(factor);
    let n = 100 * (close - open);
    let scaled_n = 100 * (factor * close - factor * open);
    assert(scaled_n == factor * n) by (nonlinear_arith)
        requires
            n == 100 * (close - open),
            scaled_n == 100 * (factor * close - factor * open),
    ;
    if open == 0 {
        assert(factor * open == 0) by (nonlinear_arith)
            requires
                open == 0,
        ;
    } else {
        assert(factor * open != 0 && ((factor * open < 0) == ((factor < 0) != (open < 0))))
            by (nonlinear_arith)
            requires
                factor != 0,
                open != 0,
        ;
        assert(magnitude(factor * open) == k * magnitude(open)) by (nonlinear_arith)
            requires
                k == magnitude(factor),
        ;
        assert(magnitude(factor * n) == k * magnitude(n)) by (nonlinear_arith)
            requires
                k == magnitude(factor),
        ;
        assert((factor * n < 0) == (n != 0 && ((factor < 0) != (n < 0)))) by (nonlinear_arith)
            requires
                factor != 0,
        ;
        let a = 2 * magnitude(n) + magnitude(open);
        let b = 2 * magnitude(open);
        lemma_div_multiples_vanish_quotient(k, a, b);
        assert(2 * (k * magnitude(n)) + k * magnitude(open) == k * a) by (nonlinear_arith)
            requires
                a == 2 * magnitude(n) + magnitude(open),
        ;
        assert(2 * (k * magnitude(open)) == k * b) by (nonlinear_arith)
            requires
                b == 2 * magnitude(open),
        ;
        if n == 0 {
            assert(a / b == 0) by (nonlinear_arith)
                requires
                    b == 2 * a,
                    a > 0,
            ;
        }
    }
}

/// Without quotes there is no change.
pub proof fn lemma_no_quotes_no_change()
    ensures
        percent_change_of(Seq::<Quote>::empty()) == 0,
{
}

/// Where the first quote opens at zero the change is zero, whatever the
/// other prices are.
pub proof fn lemma_zero_open_no_change(quotes: Seq<Quote>)
    requires
        quotes.len() > 0,
        quotes.first().open == 0,
    ensures
        percent_change_of(quotes) == 0,
{
}

/// Of one quote alone, the change is that from its own opening price to its
/// own closing price.
pub proof fn lemma_single_quote(quote: Quote)
    ensures
        percent_change_of(seq![quote]) == percent_of(quote.open as int, quote.close as int),
{
}

} // verus!

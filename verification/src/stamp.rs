//! Run-directory names encode their creation time: four-digit year, then
//! two digits for month, day, hour, minute and second, all zero padded,
//! so that the lexicographic order of sibling names is the order of
//! creation.  The clock itself is read through `chrono`.

use crate::text::{fixed_digits, lemma_fixed_digits_len, lemma_fixed_digits_order,
    lemma_lex_lt_concat, lemma_lex_lt_irreflexive, lemma_padded_is_fixed_digits, lex_lt,
    padded_decimal, pow10, spec_padded_decimal};
use chrono::{Datelike, Timelike};
use vstd::prelude::*;

verus! {

/// A local timestamp at second resolution, the identity of a run
/// directory.
#[derive(Clone, Copy, PartialEq, Eq, Structural, Debug)]
pub struct RunStamp {
    pub year: u16,
    pub month: u8,
    pub day: u8,
    pub hour: u8,
    pub minute: u8,
    pub second: u8,
}

impl RunStamp {
    /// The fields fit the calendar and the four-digit year of the name
    /// format.
    pub open spec fn wf(self) -> bool {
        &&& self.year <= 9999
        &&& 1 <= self.month <= 12
        &&& 1 <= self.day <= 31
        &&& self.hour <= 23
        &&& self.minute <= 59
        &&& self.second <= 59
    }
}

/// The name of the run directory created at `ts`, in the fixed
/// `%Y-%m-%d_%H_%M_%S` layout.
pub open spec fn spec_run_dir_name(ts: RunStamp) -> Seq<char> {
    spec_padded_decimal(ts.year as nat, 4) + seq!['-'] + spec_padded_decimal(ts.month as nat, 2)
        + seq!['-'] + spec_padded_decimal(ts.day as nat, 2) + seq!['_'] + spec_padded_decimal(
        ts.hour as nat,
        2,
    ) + seq!['_'] + spec_padded_decimal(ts.minute as nat, 2) + seq!['_'] + spec_padded_decimal(
        ts.second as nat,
        2,
    )
}

/// Renders the run-directory name for `ts`.
pub fn run_dir_name(ts: &RunStamp) -> (r: String)
    ensures
        r@ == spec_run_dir_name(*ts),
{
    let mut s = padded_decimal(ts.year as u64, 4);
    s.append("-");
    s.append(padded_decimal(ts.month as u64, 2).as_str());
    s.append("-");
    s.append(padded_decimal(ts.day as u64, 2).as_str());
    s.append("_");
    s.append(padded_decimal(ts.hour as u64, 2).as_str());
    s.append("_");
    s.append(padded_decimal(ts.minute as u64, 2).as_str());
    s.append("_");
    s.append(padded_decimal(ts.second as u64, 2).as_str());
    proof {
        reveal_strlit("-");
        reveal_strlit("_");
        assert(s@ =~= spec_run_dir_name(*ts));
    }
    s
}

/// Chronological order of stamps: the fields compared most significant
/// first.
pub open spec fn stamp_lt(a: RunStamp, b: RunStamp) -> bool {
    if a.year != b.year {
        a.year < b.year
    } else if a.month != b.month {
        a.month < b.month
    } else if a.day != b.day {
        a.day < b.day
    } else if a.hour != b.hour {
        a.hour < b.hour
    } else if a.minute != b.minute {
        a.minute < b.minute
    } else {
        a.second < b.second
    }
}

/// The naming invariant retention rests on: because every field is zero
/// padded to a fixed width, the lexicographic order of run-directory
/// names is exactly the chronological order of their stamps — so "oldest
/// by name" really is "oldest by creation".
pub proof fn lemma_name_order_is_time_order(a: RunStamp, b: RunStamp)
    requires
        a.wf(),
        b.wf(),
    ensures
        lex_lt(spec_run_dir_name(a), spec_run_dir_name(b)) == stamp_lt(a, b),
{
    assert(pow10(0nat) == 1);
    assert(pow10(1nat) == 10);
    assert(pow10(2nat) == 100);
    assert(pow10(3nat) == 1000);
    assert(pow10(4nat) == 10000);

    let ya = spec_padded_decimal(a.year as nat, 4);
    let yb = spec_padded_decimal(b.year as nat, 4);
    let ma = spec_padded_decimal(a.month as nat, 2);
    let mb = spec_padded_decimal(b.month as nat, 2);
    let da = spec_padded_decimal(a.day as nat, 2);
    let db = spec_padded_decimal(b.day as nat, 2);
    let ha = spec_padded_decimal(a.hour as nat, 2);
    let hb = spec_padded_decimal(b.hour as nat, 2);
    let ia = spec_padded_decimal(a.minute as nat, 2);
    let ib = spec_padded_decimal(b.minute as nat, 2);
    let sa = spec_padded_decimal(a.second as nat, 2);
    let sb = spec_padded_decimal(b.second as nat, 2);

    lemma_padded_is_fixed_digits(a.year as nat, 4);
    lemma_padded_is_fixed_digits(b.year as nat, 4);
    lemma_padded_is_fixed_digits(a.month as nat, 2);
    lemma_padded_is_fixed_digits(b.month as nat, 2);
    lemma_padded_is_fixed_digits(a.day as nat, 2);
    lemma_padded_is_fixed_digits(b.day as nat, 2);
    lemma_padded_is_fixed_digits(a.hour as nat, 2);
    lemma_padded_is_fixed_digits(b.hour as nat, 2);
    lemma_padded_is_fixed_digits(a.minute as nat, 2);
    lemma_padded_is_fixed_digits(b.minute as nat, 2);
    lemma_padded_is_fixed_digits(a.second as nat, 2);
    lemma_padded_is_fixed_digits(b.second as nat, 2);

    lemma_fixed_digits_len(a.year as nat, 4);
    lemma_fixed_digits_len(b.year as nat, 4);
    lemma_fixed_digits_len(a.month as nat, 2);
    lemma_fixed_digits_len(b.month as nat, 2);
    lemma_fixed_digits_len(a.day as nat, 2);
    lemma_fixed_digits_len(b.day as nat, 2);
    lemma_fixed_digits_len(a.hour as nat, 2);
    lemma_fixed_digits_len(b.hour as nat, 2);
    lemma_fixed_digits_len(a.minute as nat, 2);
    lemma_fixed_digits_len(b.minute as nat, 2);
    lemma_fixed_digits_len(a.second as nat, 2);
    lemma_fixed_digits_len(b.second as nat, 2);

    lemma_fixed_digits_order(a.year as nat, b.year as nat, 4);
    lemma_fixed_digits_order(b.year as nat, a.year as nat, 4);
    lemma_fixed_digits_order(a.month as nat, b.month as nat, 2);
    lemma_fixed_digits_order(b.month as nat, a.month as nat, 2);
    lemma_fixed_digits_order(a.day as nat, b.day as nat, 2);
    lemma_fixed_digits_order(b.day as nat, a.day as nat, 2);
    lemma_fixed_digits_order(a.hour as nat, b.hour as nat, 2);
    lemma_fixed_digits_order(b.hour as nat, a.hour as nat, 2);
    lemma_fixed_digits_order(a.minute as nat, b.minute as nat, 2);
    lemma_fixed_digits_order(b.minute as nat, a.minute as nat, 2);
    lemma_fixed_digits_order(a.second as nat, b.second as nat, 2);
    lemma_fixed_digits_order(b.second as nat, a.second as nat, 2);

    assert((ya == yb) == (a.year == b.year)) by {
        if ya == yb && a.year != b.year {
            lemma_lex_lt_irreflexive(ya);
        }
    }
    assert((ma == mb) == (a.month == b.month)) by {
        if ma == mb && a.month != b.month {
            lemma_lex_lt_irreflexive(ma);
        }
    }
    assert((da == db) == (a.day == b.day)) by {
        if da == db && a.day != b.day {
            lemma_lex_lt_irreflexive(da);
        }
    }
    assert((ha == hb) == (a.hour == b.hour)) by {
        if ha == hb && a.hour != b.hour {
            lemma_lex_lt_irreflexive(ha);
        }
    }
    assert((ia == ib) == (a.minute == b.minute)) by {
        if ia == ib && a.minute != b.minute {
            lemma_lex_lt_irreflexive(ia);
        }
    }

    let dash = seq!['-'];
    let under = seq!['_'];
    lemma_lex_lt_irreflexive(dash);
    lemma_lex_lt_irreflexive(under);

    let ta6 = sa;
    let tb6 = sb;
    let ta5 = ia + (under + ta6);
    let tb5 = ib + (under + tb6);
    let ta4 = ha + (under + ta5);
    let tb4 = hb + (under + tb5);
    let ta3 = da + (under + ta4);
    let tb3 = db + (under + tb4);
    let ta2 = ma + (dash + ta3);
    let tb2 = mb + (dash + tb3);
    let na = ya + (dash + ta2);
    let nb = yb + (dash + tb2);
    assert(spec_run_dir_name(a) =~= na);
    assert(spec_run_dir_name(b) =~= nb);

    lemma_lex_lt_concat(ya, dash + ta2, yb, dash + tb2);
    lemma_lex_lt_concat(dash, ta2, dash, tb2);
    lemma_lex_lt_concat(ma, dash + ta3, mb, dash + tb3);
    lemma_lex_lt_concat(dash, ta3, dash, tb3);
    lemma_lex_lt_concat(da, under + ta4, db, under + tb4);
    lemma_lex_lt_concat(under, ta4, under, tb4);
    lemma_lex_lt_concat(ha, under + ta5, hb, under + tb5);
    lemma_lex_lt_concat(under, ta5, under, tb5);
    lemma_lex_lt_concat(ia, under + ta6, ib, under + tb6);
    lemma_lex_lt_concat(under, ta6, under, tb6);

    assert(lex_lt(na, nb) == stamp_lt(a, b));
}

/// The year as the name format can carry it: clamped into 0..=9999.
pub open spec fn spec_clamped_year(y: int) -> int {
    if y < 0 {
        0
    } else if y > 9999 {
        9999
    } else {
        y
    }
}

/// Folds raw clock fields into a well-formed stamp; the year is clamped
/// into the four digits the name format has for it.
pub fn stamp_from_clock(y: i32, mo: u32, d: u32, h: u32, mi: u32, s: u32) -> (r: RunStamp)
    requires
        1 <= mo <= 12,
        1 <= d <= 31,
        h <= 23,
        mi <= 59,
        s <= 59,
    ensures
        r.wf(),
        r.year == spec_clamped_year(y as int),
        r.month == mo,
        r.day == d,
        r.hour == h,
        r.minute == mi,
        r.second == s,
{
    let year: u16 = if y < 0 {
        0
    } else if y > 9999 {
        9999
    } else {
        y as u16
    };
    RunStamp {
        year,
        month: mo as u8,
        day: d as u8,
        hour: h as u8,
        minute: mi as u8,
        second: s as u8,
    }
}

/// Relies on chrono::Local::now and the Datelike/Timelike getters:
/// chrono documents the month as 1..=12, the day as 1..=31, the hour
/// below 24 and minute and second below 60 (leap seconds are folded into
/// the nanosecond field); the year can be any i32.
#[verifier::external_body]
fn local_now_parts() -> (r: (i32, u32, u32, u32, u32, u32))
    ensures
        1 <= r.1 <= 12,
        1 <= r.2 <= 31,
        r.3 <= 23,
        r.4 <= 59,
        r.5 <= 59,
{
    let now = chrono::Local::now();
    (now.year(), now.month(), now.day(), now.hour(), now.minute(), now.second())
}

/// Reads the local clock and returns it as a well-formed stamp.
pub fn current_run_stamp() -> (r: RunStamp)
    ensures
        r.wf(),
{
    let (y, mo, d, h, mi, s) = local_now_parts();
    stamp_from_clock(y, mo, d, h, mi, s)
}

} // verus!

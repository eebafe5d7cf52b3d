//! Sizes and times in words.

use chrono::TimeZone;
use vstd::prelude::*;

use crate::text::{push_decimal, push_text};

verus! {

/// `n / d`, rounded to the nearest integer, and to the even one of two that are equally near.
pub open spec fn nearest(n: int, d: int) -> int {
    if 2 * (n % d) < d || (2 * (n % d) == d && n / d % 2 == 0) {
        n / d
    } else {
        n / d + 1
    }
}

/// `n / d`, rounded to the nearest integer, and to the even one of two that are equally near.
fn round(n: u128, d: u128) -> (r: u128)
    requires
        0 < d < 0x1_0000_0000_0000_0000,
    ensures
        r == nearest(n as int, d as int),
{
    let q = n / d;
    let rest = n % d;
    if 2 * rest < d || (2 * rest == d && q % 2 == 0) {
        q
    } else {
        assert(n / d < n || n == 0) by (nonlinear_arith)
            requires
                d > 1 || n == 0,
        ;
        q + 1
    }
}

/// The distance between neighbouring numbers of 53 binary digits, where `n` lies.
pub open spec fn spacing(n: int) -> int
    decreases n,
{
    if n < 0x20_0000_0000_0000 {
        1
    } else {
        2 * spacing(n / 2)
    }
}

/// `n` to 53 binary digits.
pub open spec fn to_53_digits(n: int) -> int {
    nearest(n, spacing(n)) * spacing(n)
}

/// `1024` to the power of `k`.
pub open spec fn kilo(k: int) -> int
    decreases k,
{
    if k <= 0 {
        1
    } else {
        1024 * kilo(k - 1)
    }
}

/// Which unit shows a size of `n` bytes: the largest that it reaches.
pub open spec fn unit_of(n: int) -> int {
    if n < kilo(1) {
        0
    } else if n < kilo(2) {
        1
    } else if n < kilo(3) {
        2
    } else if n < kilo(4) {
        3
    } else {
        4
    }
}

/// A unit in letters.
pub open spec fn unit_text(k: int) -> Seq<char> {
    if k == 1 {
        " KB"@
    } else if k == 2 {
        " MB"@
    } else if k == 3 {
        " GB"@
    } else {
        " TB"@
    }
}

/// A size in words: bytes as they are, and larger units, of 1024 each, to one decimal place.
pub open spec fn size_text(bytes: u64) -> Seq<char> {
    let n = to_53_digits(bytes as int);
    let k = unit_of(n);
    if k == 0 {
        crate::text::decimal(bytes as int) + " B"@
    } else {
        let tenths = nearest(10 * n, kilo(k));
        crate::text::decimal(tenths / 10) + seq!['.'] + crate::text::decimal(tenths % 10)
            + unit_text(k)
    }
}

/// The distance between neighbouring numbers of 53 binary digits, where `n` lies.
fn spacing_of(n: u64) -> (r: u64)
    ensures
        r == spacing(n as int),
        r == 1 || r * 0x10_0000_0000_0000 <= n,
        r >= 1,
    decreases n,
{
    if n < 0x20_0000_0000_0000 {
        1
    } else {
        2 * spacing_of(n / 2)
    }
}

/// `n` to 53 binary digits.
fn to_double(n: u64) -> (r: u128)
    ensures
        r == to_53_digits(n as int),
        r <= 0x2_0000_0000_0000_0000,
{
    let d = spacing_of(n) as u128;
    let q = round(n as u128, d);
    let ghost n = n as int;
    assert(n == (n / d as int) * d + n % (d as int) && 0 <= n % (d as int) < d) by (nonlinear_arith)
        requires
            d > 0,
    ;
    assert(q * d <= n + d) by (nonlinear_arith)
        requires
            q <= n / d as int + 1,
            (n / d as int) * d <= n,
            d > 0,
    ;
    q * d
}

/// A size in words: bytes as they are, and larger units, of 1024 each, to one decimal place.
pub fn fmt_size(bytes: u64) -> (r: String)
    ensures
        r@ == size_text(bytes),
{
    let n = to_double(bytes);
    proof {
        reveal_with_fuel(kilo, 5);
    }
    let mut out = String::new();
    let ghost empty = out@;
    assert(empty =~= Seq::<char>::empty());
    let (unit, text): (u128, &str) = if n < 1024 {
        push_decimal(&mut out, bytes);
        push_text(&mut out, " B");
        assert(out@ =~= size_text(bytes));
        return out;
    } else if n < 1_048_576 {
        (1024, " KB")
    } else if n < 1_073_741_824 {
        (1_048_576, " MB")
    } else if n < 1_099_511_627_776 {
        (1_073_741_824, " GB")
    } else {
        (1_099_511_627_776, " TB")
    };
    let tenths = round(10 * n, unit);
    assert(tenths / 10 <= u64::MAX) by (nonlinear_arith)
        requires
            tenths <= (10 * n) / unit as int + 1,
            unit >= 1024,
            n <= 0x2_0000_0000_0000_0000,
    ;
    push_decimal(&mut out, (tenths / 10) as u64);
    out.push('.');
    push_decimal(&mut out, (tenths % 10) as u64);
    push_text(&mut out, text);
    assert(unit == kilo(unit_of(n as int)));
    assert(text@ == unit_text(unit_of(n as int)));
    assert(out@ =~= size_text(bytes));
    out
}

proof fn lemma_nearest(n: int, d: int)
    requires
        d > 0,
    ensures
        -d <= 2 * (n - nearest(n, d) * d) <= d,
{
    assert(n == (n / d) * d + n % d && 0 <= n % d < d) by (nonlinear_arith)
        requires
            d > 0,
    ;
    assert((n / d + 1) * d == (n / d) * d + d) by (nonlinear_arith);
}

proof fn lemma_kilo(k: int)
    ensures
        kilo(k) > 0,
    decreases k,
{
    if k > 0 {
        lemma_kilo(k - 1);
    }
}

/// What is shown of a size up to 8 PB lies no more than half a tenth of the unit from the size
/// itself, and the size reaches the unit.
#[verifier::spinoff_prover]
pub proof fn sizes_are_rounded(bytes: u64)
    requires
        bytes < 0x20_0000_0000_0000,
    ensures
        ({
            let unit = kilo(unit_of(bytes as int));
            let tenths = nearest(10 * bytes, unit);
            &&& unit == 1 ==> size_text(bytes) == crate::text::decimal(bytes as int) + " B"@
            &&& unit > 1 ==> size_text(bytes) == crate::text::decimal(tenths / 10) + seq!['.']
                + crate::text::decimal(tenths % 10) + unit_text(unit_of(bytes as int))
            &&& -unit <= 2 * (10 * bytes - tenths * unit) <= unit
            &&& bytes > 0 ==> unit <= bytes
        }),
{
    reveal_with_fuel(kilo, 5);
    lemma_kilo(unit_of(bytes as int));
    lemma_nearest(10 * bytes, kilo(unit_of(bytes as int)));
    assert(nearest(bytes as int, 1) == bytes) by (nonlinear_arith);
    assert(spacing(bytes as int) == 1);
    assert(to_53_digits(bytes as int) == bytes);
}

/// `n` in decimal notation, with at least `width` digits.
pub open spec fn padded(n: int, width: int) -> Seq<char> {
    let digits = crate::text::decimal(n);
    if digits.len() < width {
        Seq::new((width - digits.len()) as nat, |i: int| '0') + digits
    } else {
        digits
    }
}

/// A year: four digits, or a sign and at least four digits where it has more or lies before the
/// year 0.
pub open spec fn year_text(y: int) -> Seq<char> {
    if y < 0 {
        seq!['-'] + padded(-y, 4)
    } else if y > 9999 {
        seq!['+'] + padded(y, 4)
    } else {
        padded(y, 4)
    }
}

/// A minute in words.
pub open spec fn minute_text(y: int, m: int, d: int, hour: int, minute: int) -> Seq<char> {
    year_text(y) + seq!['-'] + padded(m, 2) + seq!['-'] + padded(d, 2) + seq![' '] + padded(
        hour,
        2,
    ) + seq![':'] + padded(minute, 2)
}

/// Whether the instant `at` lies in the given minute.
pub open spec fn is_minute_of(y: int, m: int, d: int, hour: int, minute: int, at: int) -> bool {
    &&& crate::calendar::is_date(y, m, d)
    &&& 0 <= hour < 24
    &&& 0 <= minute < 60
    &&& crate::calendar::civil_seconds(y, m, d, hour, minute) <= at
    &&& at < crate::calendar::civil_seconds(y, m, d, hour, minute) + 60
}

/// Whether `text` shows the instant `secs` by a clock that is less than a day ahead of the
/// universal time, or behind it.
pub open spec fn shows_instant(secs: int, text: Seq<char>) -> bool {
    exists|y: int, m: int, d: int, hour: int, minute: int, ahead: int|
        {
            &&& -86_400 < ahead < 86_400
            &&& #[trigger] is_minute_of(y, m, d, hour, minute, secs + ahead)
            &&& text == minute_text(y, m, d, hour, minute)
        }
}

/// Whether the instant lies in the years that can be shown.
pub open spec fn can_be_shown(secs: int) -> bool {
    crate::calendar::civil_seconds(-262_143, 1, 1, 0, 0) <= secs
        && secs < crate::calendar::civil_seconds(262_143, 1, 1, 0, 0)
}

/// `chrono::Local.timestamp_opt`, and `DateTime::format` with `%Y-%m-%d %H:%M` on what it gives.
/// Instants from the year -262143 to the year 262142 are shown, by the clock of the machine's
/// time zone; of the zone no more is said than that it is less than a day off.
#[verifier::external_body]
fn local_time(secs: i64) -> (r: Option<String>)
    ensures
        match r {
            Some(text) => can_be_shown(secs as int) && shows_instant(secs as int, text@),
            None => !can_be_shown(secs as int),
        },
{
    chrono::Local
        .timestamp_opt(secs, 0)
        .single()
        .map(|t| t.format("%Y-%m-%d %H:%M").to_string())
}

/// Whether `text` is what a row may show of a time: nothing where it is not known, or too far
/// away.
pub open spec fn shows_time(secs: Option<i64>, text: Seq<char>) -> bool {
    match secs {
        Some(at) => if can_be_shown(at as int) {
            shows_instant(at as int, text)
        } else {
            text.len() == 0
        },
        None => text.len() == 0,
    }
}

/// Whether `text` is what the local clock can show of the instant `secs`: what formatting it by
/// the machine's time zone can give, or nothing where that gives nothing.
pub closed spec fn local_clock_can_show(secs: i64, text: Seq<char>) -> bool {
    exists|shown: Option<String>|
        {
            &&& #[trigger] call_ensures(local_time, (secs,), shown)
            &&& text == match shown {
                Some(shown) => shown@,
                None => Seq::empty(),
            }
        }
}

/// A text, or nothing where there is none.
pub fn text_or_blank(text: Option<String>) -> (r: String)
    ensures
        r@ == match text {
            Some(text) => text@,
            None => Seq::empty(),
        },
{
    match text {
        Some(text) => text,
        None => {
            let blank = String::new();
            assert(blank@ =~= Seq::<char>::empty());
            blank
        },
    }
}

/// A time in words, by the local clock.
pub fn fmt_time(secs: Option<i64>) -> (r: String)
    ensures
        shows_time(secs, r@),
        secs matches Some(at) ==> local_clock_can_show(at, r@),
{
    let text = match secs {
        Some(at) => local_time(at),
        None => None,
    };
    text_or_blank(text)
}

/// Sizes are shown in bytes below 1024, and else in the unit among KB, MB, GB and TB, of 1024 each,
/// that they reach but the next they do not, to the nearest tenth of it. (Up to 8 PB.)
#[verifier::spinoff_prover]
pub proof fn sizes_are_shown_in_their_unit(bytes: u64)
    requires
        bytes < 0x20_0000_0000_0000,
    ensures
        ({
            let shown = |unit: int, letters: Seq<char>|
                exists|tenths: int|
                    {
                        &&& -unit <= 2 * (10 * bytes - tenths * unit) <= unit
                        &&& size_text(bytes) == crate::text::decimal(tenths / 10) + seq!['.']
                            + #[trigger] crate::text::decimal(tenths % 10) + letters
                    };
            &&& bytes < 1024 ==> size_text(bytes) == crate::text::decimal(bytes as int) + " B"@
            &&& 1024 <= bytes < 1_048_576 ==> shown(1024, " KB"@)
            &&& 1_048_576 <= bytes < 1_073_741_824 ==> shown(1_048_576, " MB"@)
            &&& 1_073_741_824 <= bytes < 1_099_511_627_776 ==> shown(1_073_741_824, " GB"@)
            &&& 1_099_511_627_776 <= bytes ==> shown(1_099_511_627_776, " TB"@)
        }),
{
    sizes_are_rounded(bytes);
    reveal_with_fuel(kilo, 5);
    let unit = kilo(unit_of(bytes as int));
    let tenths = nearest(10 * bytes, unit);
    assert(crate::text::decimal(tenths % 10) == crate::text::decimal(tenths % 10));
}

proof fn lemma_spacing(n: int)
    requires
        0 <= n,
    ensures
        spacing(n) >= 1,
        spacing(n) == 1 || spacing(n) * 0x10_0000_0000_0000 <= n,
    decreases n,
{
    if n >= 0x20_0000_0000_0000 {
        lemma_spacing(n / 2);
    }
}

/// Sizes from 8 PB on are shown in TB, to the nearest tenth of it but for what a number of 53 binary
/// digits leaves out.
pub proof fn huge_sizes_are_shown_in_tb(bytes: u64)
    requires
        bytes >= 0x20_0000_0000_0000,
    ensures
        exists|tenths: int|
            {
                &&& size_text(bytes) == crate::text::decimal(tenths / 10) + seq!['.']
                    + #[trigger] crate::text::decimal(tenths % 10) + " TB"@
                &&& 2 * (10 * bytes - tenths * 1_099_511_627_776) <= 1_099_511_627_776 + 40_960
                &&& -1_099_511_627_776 - 40_960 <= 2 * (10 * bytes - tenths * 1_099_511_627_776)
            },
{
    let b = bytes as int;
    let d = spacing(b);
    lemma_spacing(b);
    assert(d <= 4096);
    lemma_nearest(b, d);
    let n = to_53_digits(b);
    assert(-d <= 2 * (b - n) <= d);
    reveal_with_fuel(kilo, 5);
    assert(unit_of(n) == 4);
    let unit = kilo(4);
    assert(unit == 1_099_511_627_776);
    lemma_nearest(10 * n, unit);
    let tenths = nearest(10 * n, unit);
    assert(size_text(bytes) == crate::text::decimal(tenths / 10) + seq!['.']
        + crate::text::decimal(tenths % 10) + " TB"@);
}

} // verus!

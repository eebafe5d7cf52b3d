//! What the lines of a listing say, format by format.

use vstd::prelude::*;

use crate::calendar::{
    civil_seconds, day_does_not_pass_its_year, year_at,
};
use crate::ftp::parser::{
    ampm_time, are_facts, cut_date, ends_facts, fact_text, facts_read_back, has_distinct_names,
    instant_of, is_date_mark, is_fact, is_kind, is_perm, is_perm_column, is_total, is_unread, last_fact,
    lemma_date_is_no_perm_column, lemma_digits_are_plain, lemma_last_fact, lemma_lower_names,
    lemma_number_len, lemma_number_len_is, lemma_word_joined, listing_entry, mlsd_entry, mlsd_time,
    month_number, octal_perms, perm_text, recent_dates_are_recent, recent_seconds, unix_entry,
    unix_lines_read_back, unix_time, windows_date, windows_entry, without_zeros,
};
use crate::ftp::types::EntryView;
use crate::text::{
    before, begins_with, cut_undoes_join, decimal, decimal_is_made_of_digits, decimal_reads_back,
    digit_char, digits_value, is_digit, is_number, is_white, is_word, lemma_cut, lower, lower_all,
    spaced, trimmed, trimmed_ignores_ends, unsigned_part, words, words_undo_spaced,
};

verus! {

/// The letters by which the months go, one after the other.
pub open spec fn month_letters() -> Seq<char> {
    "janfebmaraprmayjunjulaugsepoctnovdec"@
}

/// The three letters by which the month goes.
pub open spec fn month_name(month: int) -> Seq<char> {
    month_letters().subrange(3 * month - 3, 3 * month)
}

proof fn lemma_month_names()
    ensures
        month_name(1) == "jan"@,
        month_name(2) == "feb"@,
        month_name(3) == "mar"@,
        month_name(4) == "apr"@,
        month_name(5) == "may"@,
        month_name(6) == "jun"@,
        month_name(7) == "jul"@,
        month_name(8) == "aug"@,
        month_name(9) == "sep"@,
        month_name(10) == "oct"@,
        month_name(11) == "nov"@,
        month_name(12) == "dec"@,
{
    reveal_strlit("janfebmaraprmayjunjulaugsepoctnovdec");
    reveal_strlit("jan");
    reveal_strlit("feb");
    reveal_strlit("mar");
    reveal_strlit("apr");
    reveal_strlit("may");
    reveal_strlit("jun");
    reveal_strlit("jul");
    reveal_strlit("aug");
    reveal_strlit("sep");
    reveal_strlit("oct");
    reveal_strlit("nov");
    reveal_strlit("dec");
    assert(month_name(1) =~= "jan"@);
    assert(month_name(2) =~= "feb"@);
    assert(month_name(3) =~= "mar"@);
    assert(month_name(4) =~= "apr"@);
    assert(month_name(5) =~= "may"@);
    assert(month_name(6) =~= "jun"@);
    assert(month_name(7) =~= "jul"@);
    assert(month_name(8) =~= "aug"@);
    assert(month_name(9) =~= "sep"@);
    assert(month_name(10) =~= "oct"@);
    assert(month_name(11) =~= "nov"@);
    assert(month_name(12) =~= "dec"@);
}

/// Two months go by different letters.
proof fn lemma_month_names_differ(a: int, b: int)
    requires
        1 <= a < b <= 12,
    ensures
        month_name(a) != month_name(b),
{
    reveal_strlit("janfebmaraprmayjunjulaugsepoctnovdec");
    let letters = month_letters();
    let (x, y) = (month_name(a), month_name(b));
    assert(x[0] == letters[3 * a - 3] && x[1] == letters[3 * a - 2] && x[2] == letters[3 * a - 1]);
    assert(y[0] == letters[3 * b - 3] && y[1] == letters[3 * b - 2] && y[2] == letters[3 * b - 1]);
    assert(a == 1 || a == 2 || a == 3 || a == 4 || a == 5 || a == 6 || a == 7 || a == 8 || a == 9
        || a == 10 || a == 11);
    assert(b == 2 || b == 3 || b == 4 || b == 5 || b == 6 || b == 7 || b == 8 || b == 9 || b == 10
        || b == 11 || b == 12);
}

/// A month is read by the first three letters of its English name, in any case and with any
/// letters behind them, as its number in the year; nothing else is a month.
#[verifier::spinoff_prover]
pub proof fn months_are_read_by_name(token: Seq<char>, month: int)
    requires
        1 <= month <= 12,
    ensures
        month_number(token) == Some(month) <==> token.len() >= 3 && lower_all(token.take(3))
            == month_name(month),
        month_number(token) matches Some(k) ==> 1 <= k <= 12,
{
    lemma_month_names();
    if token.len() >= 3 {
        let m = lower_all(token).take(3);
        assert(m =~= lower_all(token.take(3)));
        assert forall|a: int, b: int| 1 <= a < b <= 12 implies #[trigger] month_name(a)
            != #[trigger] month_name(b) by {
            lemma_month_names_differ(a, b);
        }
        assert(month == 1 || month == 2 || month == 3 || month == 4 || month == 5 || month == 6
            || month == 7 || month == 8 || month == 9 || month == 10 || month == 11 || month == 12);
    }
}

/// A Unix line with a year names the first minute of the day that it was made of, the month
/// written by the beginning of its English name in any case of the letters.
pub proof fn unix_lines_name_their_day(
    perms: Seq<char>,
    size: u64,
    token: Seq<char>,
    month: int,
    day: int,
    year: int,
    name: Seq<char>,
    now: int,
)
    requires
        is_perm_column(perms),
        is_word(token),
        1 <= month <= 12,
        token.len() >= 3,
        lower_all(token.take(3)) == month_name(month),
        1 <= day <= 31,
        1970 <= year <= 2200,
        is_word(name),
        before(name, " -> "@) == name,
    ensures
        ({
            let some = seq!['1'];
            let fields = seq![
                perms,
                some,
                some,
                some,
                decimal(size as int),
                token,
                decimal(day),
                decimal(year),
                name,
            ];
            unix_entry(spaced(fields), now) matches Some(e) && e.name == name && e.size == size
                && e.perms == Some(perms) && e.modified == Some(
                civil_seconds(year, month, day, 0, 0) as i64,
            )
        }),
{
    let some = seq!['1'];
    months_are_read_by_name(token, month);
    let head = seq![
        perms,
        some,
        some,
        some,
        decimal(size as int),
        token,
        decimal(day),
        decimal(year),
    ];
    let names = seq![name];
    lemma_one_spaced(name);
    unix_lines_read_back(perms, some, some, some, size, token, day, year, names, now);
    assert(head + names =~= seq![
        perms,
        some,
        some,
        some,
        decimal(size as int),
        token,
        decimal(day),
        decimal(year),
        name,
    ]);
}

proof fn lemma_one_spaced(name: Seq<char>)
    ensures
        spaced(seq![name]) == name,
{
    assert(seq![name].drop_last() =~= Seq::<Seq<char>>::empty());
    reveal_with_fuel(spaced, 2);
    assert(spaced(seq![name]) =~= name);
}

/// The three letters of one octal digit of a file mode: whether one may read, write and execute.
pub open spec fn digit_letters(digit: int) -> Seq<char> {
    seq![
        if digit >= 4 {
            'r'
        } else {
            '-'
        },
        if digit % 4 >= 2 {
            'w'
        } else {
            '-'
        },
        if digit % 2 == 1 {
            'x'
        } else {
            '-'
        },
    ]
}

/// The letters of a file mode are those of its last three octal digits, which stand for the owner,
/// the group and everybody else, in this order.
pub proof fn modes_are_shown_digit_by_digit(rest: int, owner: int, group: int, others: int)
    requires
        0 <= rest,
        0 <= owner < 8,
        0 <= group < 8,
        0 <= others < 8,
    ensures
        perm_text(512 * rest + 64 * owner + 8 * group + others) == digit_letters(owner)
            + digit_letters(group) + digit_letters(others),
{
    let mode = 512 * rest + 64 * owner + 8 * group + others;
    assert(perm_text(mode) =~= digit_letters(owner) + digit_letters(group) + digit_letters(others))
        by {
        assert(mode / 256 == 2 * rest + owner / 4);
        assert(mode / 128 == 4 * rest + owner / 2);
        assert(mode / 64 == 8 * rest + owner);
        assert(mode / 32 == 16 * rest + 2 * owner + group / 4);
        assert(mode / 16 == 32 * rest + 4 * owner + group / 2);
        assert(mode / 8 == 64 * rest + 8 * owner + group);
        assert(mode / 4 == 128 * rest + 16 * owner + 2 * group + others / 4);
        assert(mode / 2 == 256 * rest + 32 * owner + 4 * group + others / 2);
        assert(mode / 1 == mode);
    }
}

/// A mode in octal, with or without zeros before it, is read digit by digit.
pub proof fn octal_modes_are_read_digit_by_digit(zeros: nat, owner: int, group: int, others: int)
    requires
        0 <= owner < 8,
        0 <= group < 8,
        0 <= others < 8,
    ensures
        octal_perms(
            Seq::new(zeros, |i: int| '0') + seq![
                digit_char(owner),
                digit_char(group),
                digit_char(others),
            ],
        ) == digit_letters(owner) + digit_letters(group) + digit_letters(others),
{
    let digits = seq![digit_char(owner), digit_char(group), digit_char(others)];
    let text = Seq::new(zeros, |i: int| '0') + digits;
    lemma_zeros_dropped(zeros, digits);
    modes_are_shown_digit_by_digit(0, owner, group, others);
    let left = without_zeros(digits);
    let (a, b, c) = (digit_char(owner), digit_char(group), digit_char(others));
    assert(digits.drop_first() =~= seq![b, c]);
    assert(seq![b, c].drop_first() =~= seq![c]);
    assert(seq![c].drop_first() =~= Seq::<char>::empty());
    reveal_with_fuel(without_zeros, 5);
    reveal_with_fuel(digits_value, 4);
    let none = Seq::<char>::empty();
    assert(without_zeros(none) == none);
    assert(digits.drop_last() =~= seq![a, b]);
    assert(seq![a, b].drop_last() =~= seq![a]);
    assert(seq![b, c].drop_last() =~= seq![b]);
    assert(seq![a].drop_last() =~= none);
    assert(seq![b].drop_last() =~= none);
    assert(seq![c].drop_last() =~= none);
    assert(digits_value(digits, 8) == 64 * owner + 8 * group + others);
    assert(digits_value(seq![b, c], 8) == 8 * group + others);
    assert(digits_value(seq![c], 8) == others);
    assert(owner != 0 ==> left == digits);
    assert(owner == 0 && group != 0 ==> left == seq![b, c]);
    assert(owner == 0 && group == 0 && others != 0 ==> left == seq![c]);
    assert(owner == 0 && group == 0 && others == 0 ==> left == none);
    if left.len() > 0 {
        assert(left[0] != '+');
        assert(is_number(left, 8));
    }
}

proof fn lemma_zeros_dropped(zeros: nat, rest: Seq<char>)
    ensures
        without_zeros(Seq::new(zeros, |i: int| '0') + rest) == without_zeros(rest),
    decreases zeros,
{
    let text = Seq::new(zeros, |i: int| '0') + rest;
    if zeros == 0 {
        assert(text =~= rest);
    } else {
        let fewer = (zeros - 1) as nat;
        lemma_zeros_dropped(fewer, rest);
        assert(text[0] == '0');
        assert(text.drop_first() =~= Seq::new(fewer, |i: int| '0') + rest);
    }
}

/// A number below 100 in two digits.
pub open spec fn two_digits(n: int) -> Seq<char> {
    seq![digit_char(n / 10), digit_char(n % 10)]
}

/// A minute as MLSD writes it, with seconds.
pub open spec fn mlsd_stamp(
    year: int,
    month: int,
    day: int,
    hour: int,
    minute: int,
    second: int,
) -> Seq<char> {
    two_digits(year / 100) + two_digits(year % 100) + two_digits(month) + two_digits(day)
        + two_digits(hour) + two_digits(minute) + two_digits(second)
}

proof fn lemma_two_digits(n: int)
    requires
        0 <= n < 100,
    ensures
        digits_value(two_digits(n), 10) == n,
        is_digit(two_digits(n)[0], 10),
        is_digit(two_digits(n)[1], 10),
{
    reveal_with_fuel(digits_value, 3);
    let d = two_digits(n);
    assert(d.drop_last().drop_last() =~= Seq::<char>::empty());
    assert(d.drop_last().last() == d[0]);
}

proof fn lemma_all_kept(s: Seq<char>, keep: spec_fn(char) -> bool)
    requires
        forall|i: int| 0 <= i < s.len() ==> keep(#[trigger] s[i]),
    ensures
        s.filter(keep) == s,
    decreases s.len(),
{
    reveal(Seq::filter);
    if s.len() > 0 {
        let rest = s.drop_last();
        assert forall|i: int| 0 <= i < rest.len() implies keep(#[trigger] rest[i]) by {
            assert(rest[i] == s[i]);
        }
        lemma_all_kept(rest, keep);
        assert(keep(s[s.len() - 1]));
        assert(rest.push(s.last()) =~= s);
    } else {
        assert(s.filter(keep) =~= s);
    }
}

proof fn lemma_stamp_is_digits(
    year: int,
    month: int,
    day: int,
    hour: int,
    minute: int,
    second: int,
)
    requires
        0 <= year <= 9999,
        0 <= month <= 99,
        0 <= day <= 99,
        0 <= hour <= 99,
        0 <= minute <= 99,
        0 <= second <= 99,
    ensures
        ({
            let stamp = mlsd_stamp(year, month, day, hour, minute, second);
            &&& stamp.len() == 14
            &&& forall|i: int| 0 <= i < 14 ==> is_digit(#[trigger] stamp[i], 10)
        }),
{
    lemma_two_digits(year / 100);
    lemma_two_digits(year % 100);
    lemma_two_digits(month);
    lemma_two_digits(day);
    lemma_two_digits(hour);
    lemma_two_digits(minute);
    lemma_two_digits(second);
}

proof fn lemma_stamp_parts(
    year: int,
    month: int,
    day: int,
    hour: int,
    minute: int,
    second: int,
)
    ensures
        ({
            let stamp = mlsd_stamp(year, month, day, hour, minute, second);
            &&& stamp.subrange(0, 4) == two_digits(year / 100) + two_digits(year % 100)
            &&& stamp.subrange(4, 6) == two_digits(month)
            &&& stamp.subrange(6, 8) == two_digits(day)
            &&& stamp.subrange(8, 10) == two_digits(hour)
            &&& stamp.subrange(10, 12) == two_digits(minute)
        }),
{
    let stamp = mlsd_stamp(year, month, day, hour, minute, second);
    assert(stamp.subrange(0, 4) =~= two_digits(year / 100) + two_digits(year % 100));
    assert(stamp.subrange(4, 6) =~= two_digits(month));
    assert(stamp.subrange(6, 8) =~= two_digits(day));
    assert(stamp.subrange(8, 10) =~= two_digits(hour));
    assert(stamp.subrange(10, 12) =~= two_digits(minute));
}

proof fn lemma_four_digits(n: int)
    requires
        0 <= n <= 9999,
    ensures
        digits_value(two_digits(n / 100) + two_digits(n % 100), 10) == n,
{
    let (p, q) = (two_digits(n / 100), two_digits(n % 100));
    let y = p + q;
    lemma_two_digits(n / 100);
    let x = p + seq![q[0]];
    assert(y.drop_last() =~= x);
    assert(x.drop_last() =~= p);
    assert(y.last() == q[1]);
    assert(x.last() == q[0]);
    assert(digits_value(y, 10) == digits_value(x, 10) * 10 + n % 10);
    assert(digits_value(x, 10) == digits_value(p, 10) * 10 + n % 100 / 10);
}

/// An MLSD time names its minute.
pub proof fn mlsd_times_name_their_minute(
    year: int,
    month: int,
    day: int,
    hour: int,
    minute: int,
    second: int,
)
    requires
        0 <= year <= 9999,
        1 <= month <= 12,
        1 <= day <= 31,
        0 <= hour <= 23,
        0 <= minute <= 59,
        0 <= second <= 99,
    ensures
        mlsd_time(mlsd_stamp(year, month, day, hour, minute, second)) == Some(
            civil_seconds(year, month, day, hour, minute) as i64,
        ),
{
    lemma_stamp_is_digits(year, month, day, hour, minute, second);
    lemma_stamp_parts(year, month, day, hour, minute, second);
    lemma_four_digits(year);
    lemma_two_digits(month);
    lemma_two_digits(day);
    lemma_two_digits(hour);
    lemma_two_digits(minute);
    lemma_time_of_digits(
        mlsd_stamp(year, month, day, hour, minute, second),
        year,
        month,
        day,
        hour,
        minute,
    );
}

proof fn lemma_time_of_digits(
    d: Seq<char>,
    year: int,
    month: int,
    day: int,
    hour: int,
    minute: int,
)
    requires
        d.len() == 14,
        forall|i: int| 0 <= i < 14 ==> is_digit(#[trigger] d[i], 10),
        digits_value(d.subrange(0, 4), 10) == year,
        digits_value(d.subrange(4, 6), 10) == month,
        digits_value(d.subrange(6, 8), 10) == day,
        digits_value(d.subrange(8, 10), 10) == hour,
        digits_value(d.subrange(10, 12), 10) == minute,
        0 <= year <= 9999,
        1 <= month <= 12,
        1 <= day <= 31,
        0 <= hour <= 23,
        0 <= minute <= 59,
    ensures
        mlsd_time(d) == Some(civil_seconds(year, month, day, hour, minute) as i64),
{
    let keep = |c: char| is_digit(c, 10);
    assert forall|i: int| 0 <= i < d.len() implies keep(#[trigger] d[i]) by {}
    lemma_all_kept(d, keep);
    day_does_not_pass_its_year(year, month, day);
}

/// Whether no character of `s` ends a fact, parts it, or is white space.
spec fn is_plain(s: Seq<char>) -> bool {
    forall|i: int|
        0 <= i < s.len() ==> #[trigger] s[i] != ';' && s[i] != '=' && !is_white(s[i])
}

proof fn lemma_plain_fact(key: Seq<char>, value: Seq<char>)
    requires
        key.len() > 0,
        value.len() > 0,
        is_plain(key),
        is_plain(value),
    ensures
        is_fact((key, value)),
{
    let s = key + seq!['='] + value;
    assert(s[0] == key[0]);
    assert(s.last() == value[value.len() - 1]);
    crate::text::trimmed_keeps_the_rest(s);
    assert(!key.contains('=')) by {
        if key.contains('=') {
            let i = choose|i: int| 0 <= i < key.len() && key[i] == '=';
        }
    }
}

/// An MLSD line says what it was made of: what the entry is, its size, its time, its mode, and its
/// name, blanks in it and all.
#[verifier::spinoff_prover]
pub proof fn mlsd_lines_read_back(
    kind: Seq<char>,
    is_dir: bool,
    size: u64,
    year: int,
    month: int,
    day: int,
    hour: int,
    minute: int,
    owner: int,
    group: int,
    others: int,
    name: Seq<char>,
)
    requires
        kind.len() > 0,
        forall|i: int|
            0 <= i < kind.len() ==> #[trigger] kind[i] != ';' && kind[i] != '=' && !is_white(
                kind[i],
            ),
        is_dir == (lower_all(kind) == "dir"@ || lower_all(kind) == "cdir"@ || lower_all(kind)
            == "pdir"@),
        0 <= year <= 9999,
        1 <= month <= 12,
        1 <= day <= 31,
        0 <= hour <= 23,
        0 <= minute <= 59,
        0 <= owner < 8,
        0 <= group < 8,
        0 <= others < 8,
        name.len() > 0,
        !is_white(name[0]),
        !is_white(name.last()),
        !name.contains(';'),
    ensures
        ({
            let mode = seq!['0', digit_char(owner), digit_char(group), digit_char(others)];
            let facts = seq![
                ("type"@, kind),
                ("size"@, decimal(size as int)),
                ("modify"@, mlsd_stamp(year, month, day, hour, minute, 0)),
                ("unix.mode"@, mode),
            ];
            let blanks = Seq::new(4, |i: int| Seq::<char>::empty());
            mlsd_entry(fact_text(blanks, facts) + (seq![' '] + name)) == Some(
                EntryView {
                    name,
                    is_dir,
                    size,
                    modified: Some(civil_seconds(year, month, day, hour, minute) as i64),
                    perms: Some(
                        digit_letters(owner) + digit_letters(group) + digit_letters(others),
                    ),
                },
            )
        }),
{
    let digits = seq![digit_char(owner), digit_char(group), digit_char(others)];
    let mode = seq!['0', digit_char(owner), digit_char(group), digit_char(others)];
    let stamp = mlsd_stamp(year, month, day, hour, minute, 0);
    let number = decimal(size as int);
    let fs = seq![("type"@, kind), ("size"@, number), ("modify"@, stamp), ("unix.mode"@, mode)];
    let blanks = Seq::new(4, |i: int| Seq::<char>::empty());
    let rest = seq![' '] + name;
    reveal_strlit("type");
    reveal_strlit("size");
    reveal_strlit("modify");
    reveal_strlit("unix.mode");
    lemma_lower_names();
    assert(is_fact(fs[0])) by {
        lemma_plain_fact("type"@, kind);
    }
    assert(is_fact(fs[1])) by {
        lemma_digits_are_plain(size as int);
        lemma_plain_fact("size"@, number);
    }
    assert(is_fact(fs[2])) by {
        lemma_stamp_is_digits(year, month, day, hour, minute, 0);
        lemma_plain_fact("modify"@, stamp);
    }
    assert(is_fact(fs[3])) by {
        lemma_plain_fact("unix.mode"@, mode);
    }
    assert(are_facts(blanks, fs));
    assert(ends_facts(rest)) by {
        lemma_cut(rest, ';');
        if rest.contains(';') {
            let i = choose|i: int| 0 <= i < rest.len() && rest[i] == ';';
            assert(name[i - 1] == ';');
        }
    }
    facts_read_back(blanks, fs, rest);
    assert(trimmed(rest) == name) by {
        trimmed_ignores_ends(name, ' ');
        crate::text::trimmed_keeps_the_rest(name);
    }
    assert(has_distinct_names(fs)) by {
        assert(lower_all(fs[0].0).len() == 4 && lower_all(fs[0].0)[0] == 't');
        assert(lower_all(fs[1].0).len() == 4 && lower_all(fs[1].0)[0] == 's');
        assert(lower_all(fs[2].0).len() == 6);
        assert(lower_all(fs[3].0).len() == 9);
    }
    assert(fs.take(4) =~= fs);
    assert(last_fact(fs, "type"@) == Some(kind)) by {
        assert(lower_all(fs[0].0) == "type"@);
        lemma_last_fact(fs, 4, "type"@, kind);
    }
    assert(last_fact(fs, "size"@) == Some(number)) by {
        assert(lower_all(fs[1].0) == "size"@);
        lemma_last_fact(fs, 4, "size"@, number);
    }
    assert(last_fact(fs, "modify"@) == Some(stamp)) by {
        assert(lower_all(fs[2].0) == "modify"@);
        lemma_last_fact(fs, 4, "modify"@, stamp);
    }
    assert(last_fact(fs, "unix.mode"@) == Some(mode)) by {
        assert(lower_all(fs[3].0) == "unix.mode"@);
        lemma_last_fact(fs, 4, "unix.mode"@, mode);
    }
    decimal_reads_back(size as int, u64::MAX as int);
    mlsd_times_name_their_minute(year, month, day, hour, minute, 0);
    assert(mode =~= Seq::new(1, |i: int| '0') + digits);
    octal_modes_are_read_digit_by_digit(1, owner, group, others);
}

proof fn lemma_time_of_day_reads_back(month: int, day: int, hour: int, minute: int, now: i64)
    requires
        1 <= month <= 12,
        1 <= day <= 31,
        0 <= hour <= 23,
        0 <= minute <= 59,
        0 <= now <= i64::MAX - 86_400,
    ensures
        unix_time(
            decimal(hour) + seq![':'] + decimal(minute),
            month,
            day,
            now as int,
        ) matches Some(at) && is_last_before(
            at as int,
            month,
            day,
            hour,
            minute,
            now as int,
        ),
{
    decimal_is_made_of_digits(hour, ':');
    decimal_reads_back(hour, u32::MAX as int);
    decimal_reads_back(minute, u32::MAX as int);
    cut_undoes_join(decimal(hour), ':', decimal(minute));
    lemma_recent_is_last(month, day, hour, minute, now as int);
    recent_dates_are_recent(month, day, hour, minute, now as int);
}

/// A Unix line with a time of day names that minute in the year of the clock, or in the year
/// before where it would lie more than a day ahead.
pub proof fn unix_lines_name_their_minute(
    perms: Seq<char>,
    size: u64,
    token: Seq<char>,
    month: int,
    day: int,
    hour: int,
    minute: int,
    name: Seq<char>,
    now: i64,
)
    requires
        is_perm_column(perms),
        is_word(token),
        1 <= month <= 12,
        token.len() >= 3,
        lower_all(token.take(3)) == month_name(month),
        1 <= day <= 31,
        0 <= hour <= 23,
        0 <= minute <= 59,
        is_word(name),
        before(name, " -> "@) == name,
        0 <= now <= i64::MAX - 86_400,
    ensures
        ({
            let some = seq!['1'];
            let fields = seq![
                perms,
                some,
                some,
                some,
                decimal(size as int),
                token,
                decimal(day),
                decimal(hour) + seq![':'] + decimal(minute),
                name,
            ];
            unix_entry(spaced(fields), now as int) matches Some(e) && e.name == name && e.size
                == size && e.perms == Some(perms) && (e.modified matches Some(at) && exists|y: int|
                {
                    &&& at == #[trigger] civil_seconds(y, month, day, hour, minute)
                    &&& now - 366 * 86_400 < at <= now + 86_400
                    &&& y == year_at(now as int) || (y == year_at(now as int) - 1 && civil_seconds(
                        y + 1,
                        month,
                        day,
                        hour,
                        minute,
                    ) > now + 86_400)
                })
        }),
{
    let some = seq!['1'];
    let time = decimal(hour) + seq![':'] + decimal(minute);
    let fields = seq![
        perms,
        some,
        some,
        some,
        decimal(size as int),
        token,
        decimal(day),
        time,
        name,
    ];
    months_are_read_by_name(token, month);
    assert forall|i: int| 0 <= i < perms.len() implies !is_white(#[trigger] perms[i]) by {
        if i > 0 {
            assert(is_perm(perms[i]));
        }
    }
    decimal_is_made_of_digits(size as int, ':');
    decimal_is_made_of_digits(day, ':');
    decimal_is_made_of_digits(hour, ':');
    decimal_is_made_of_digits(minute, ':');
    lemma_word_joined(decimal(hour), ':', decimal(minute));
    assert forall|i: int| 0 <= i < fields.len() implies is_word(#[trigger] fields[i]) by {}
    words_undo_spaced(fields);
    assert(fields.skip(8) =~= seq![name]);
    lemma_one_spaced(name);
    decimal_reads_back(size as int, u64::MAX as int);
    decimal_reads_back(day, u32::MAX as int);
    lemma_time_of_day_reads_back(month, day, hour, minute, now);
}

/// Whether `at` is the minute in the year of the clock, or in the year before where it would lie
/// more than a day ahead.
spec fn is_last_before(at: int, month: int, day: int, hour: int, minute: int, now: int) -> bool {
    exists|y: int|
        {
            &&& at == #[trigger] civil_seconds(y, month, day, hour, minute)
            &&& now - 366 * 86_400 < at <= now + 86_400
            &&& y == year_at(now) || (y == year_at(now) - 1 && civil_seconds(
                y + 1,
                month,
                day,
                hour,
                minute,
            ) > now + 86_400)
        }
}

proof fn lemma_recent_is_last(month: int, day: int, hour: int, minute: int, now: int)
    requires
        1 <= month <= 12,
        1 <= day <= 31,
        0 <= hour <= 23,
        0 <= minute <= 59,
        0 <= now,
    ensures
        is_last_before(
            recent_seconds(month, day, hour, minute, now),
            month,
            day,
            hour,
            minute,
            now,
        ),
{
    recent_dates_are_recent(month, day, hour, minute, now);
    let y = year_at(now);
    let t = recent_seconds(month, day, hour, minute, now);
    let this_year = civil_seconds(y, month, day, hour, minute);
    if this_year - now > 86_400 {
        assert(t == civil_seconds(y - 1, month, day, hour, minute));
        assert(civil_seconds(y - 1 + 1, month, day, hour, minute) == this_year);
    } else {
        assert(t == this_year);
    }
}

/// The name of a link is what stands before the arrow, not where the link leads.
pub proof fn links_go_by_their_own_name(
    perms: Seq<char>,
    size: u64,
    token: Seq<char>,
    month: int,
    day: int,
    year: int,
    name: Seq<char>,
    target: Seq<char>,
    now: int,
)
    requires
        is_perm_column(perms),
        is_word(token),
        1 <= month <= 12,
        token.len() >= 3,
        lower_all(token.take(3)) == month_name(month),
        1 <= day <= 31,
        1970 <= year <= 2200,
        is_word(name),
        is_word(target),
    ensures
        ({
            let some = seq!['1'];
            let fields = seq![
                perms,
                some,
                some,
                some,
                decimal(size as int),
                token,
                decimal(day),
                decimal(year),
                name,
                "->"@,
                target,
            ];
            unix_entry(spaced(fields), now) matches Some(e) && e.name == name && e.is_dir == (
            perms[0] == 'd' || perms[0] == 'l')
        }),
{
    let some = seq!['1'];
    let fields = seq![
        perms,
        some,
        some,
        some,
        decimal(size as int),
        token,
        decimal(day),
        decimal(year),
        name,
        "->"@,
        target,
    ];
    reveal_strlit("->");
    reveal_strlit(" -> ");
    months_are_read_by_name(token, month);
    assert forall|i: int| 0 <= i < perms.len() implies !is_white(#[trigger] perms[i]) by {
        if i > 0 {
            assert(is_perm(perms[i]));
        }
    }
    decimal_is_made_of_digits(size as int, ':');
    decimal_is_made_of_digits(day, ':');
    decimal_is_made_of_digits(year, ':');
    assert forall|i: int| 0 <= i < fields.len() implies is_word(#[trigger] fields[i]) by {}
    words_undo_spaced(fields);
    let tail = seq![name, "->"@, target];
    assert(fields.skip(8) =~= tail);
    assert(tail.drop_last() =~= seq![name, "->"@]);
    assert(seq![name, "->"@].drop_last() =~= seq![name]);
    reveal_with_fuel(spaced, 4);
    let text = spaced(tail);
    assert(text =~= name + " -> "@ + target);
    crate::text::before_ends_at_the_first_place(text, " -> "@);
    let n = before(text, " -> "@).len() as int;
    let k = name.len() as int;
    assert(begins_with(text.skip(k), " -> "@)) by {
        assert(text.skip(k).take(4) =~= " -> "@);
    }
    if n < k {
        assert(text.skip(n)[0] == name[n]);
        assert(" -> "@[0] == ' ');
        assert(false) by {
            assert(begins_with(text.skip(n), " -> "@));
            assert(text.skip(n).take(4)[0] == text.skip(n)[0]);
        }
    }
    assert(n == k);
    assert(text.take(k) =~= name);
    decimal_reads_back(size as int, u64::MAX as int);
    decimal_reads_back(day, u32::MAX as int);
    decimal_reads_back(year, i64::MAX as int);
    lemma_cut(decimal(year), ':');
    lemma_digits_are_plain(year);
    day_does_not_pass_its_year(year, month, day);
}

/// A year below 100 in a Windows date counts from 2000; any other stands for itself.
pub proof fn short_years_count_from_2000(month: int, day: int, year: int)
    requires
        1 <= month <= 12,
        1 <= day <= 31,
        0 <= year <= 9999,
    ensures
        ({
            let date = |mark: char|
                decimal(month) + seq![mark] + decimal(day) + seq![mark] + decimal(year);
            let read = Some(
                (
                    if year < 100 {
                        2000 + year
                    } else {
                        year
                    },
                    month,
                    day,
                ),
            );
            windows_date(date('-')) == read && windows_date(date('/')) == read
        }),
{
    lemma_date_reads_back(month, day, year, '-');
    lemma_date_reads_back(month, day, year, '/');
}

proof fn lemma_date_reads_back(month: int, day: int, year: int, mark: char)
    requires
        1 <= month <= 12,
        1 <= day <= 31,
        0 <= year <= 9999,
        is_date_mark(mark),
    ensures
        windows_date(decimal(month) + seq![mark] + decimal(day) + seq![mark] + decimal(year))
            == Some(
            (
                if year < 100 {
                    2000 + year
                } else {
                    year
                },
                month,
                day,
            ),
        ),
{
    let (m, d, y) = (decimal(month), decimal(day), decimal(year));
    let date = m + seq![mark] + d + seq![mark] + y;
    lemma_digits_are_plain(month);
    lemma_digits_are_plain(day);
    lemma_digits_are_plain(year);
    let rest = d + seq![mark] + y;
    assert(cut_date(date) == Some((m, rest))) by {
        assert(date =~= m + seq![mark] + rest);
        lemma_number_len(m, mark, rest);
    }
    assert(cut_date(rest) == Some((d, y))) by {
        lemma_number_len(d, mark, y);
    }
    assert(cut_date(y).is_none()) by {
        lemma_number_len_is(y, y.len() as int);
    }
    decimal_reads_back(month, u32::MAX as int);
    decimal_reads_back(day, u32::MAX as int);
    decimal_reads_back(year, i64::MAX as int);
    assert('0' <= y[0] <= '9');
}

/// The lines that count the blocks of a listing, in either language and in any case of the letters,
/// are no entries; no other line is taken for one of them.
pub proof fn totals_are_no_entries(line: Seq<char>, now: int)
    ensures
        ({
            let t = trimmed(line);
            let total = (t.len() >= 6 && lower_all(t.take(6)) == "total "@) || (t.len() >= 2
                && t.take(2) == "总计"@);
            &&& total == is_total(t)
            &&& total ==> listing_entry(line, now).is_none() && !is_unread(line, now)
        }),
{
    let t = trimmed(line);
    reveal_strlit("total ");
    reveal_strlit("总计");
    if t.len() >= 6 {
        assert(lower_all(t).take(6) =~= lower_all(t.take(6)));
    }
    if t.len() >= 2 {
        let (a, b) = (lower_all(t).take(2), t.take(2));
        assert(a =~= lower_all(b));
        if b == "总计"@ {
            assert(a =~= b);
        }
        if a == "总计"@ {
            assert(a[0] == '总' && a[1] == '计');
            assert(lower(b[0]) == a[0] && lower(b[1]) == a[1]);
            assert(b =~= a);
        }
    }
}

/// What an MLSD line does not tell, or tells in no way that can be read, is left open: the entry is
/// a file, its size counts as 0, and its time and its permissions are not known.
pub proof fn untold_facts_are_left_open(
    blanks: Seq<Seq<char>>,
    fs: Seq<(Seq<char>, Seq<char>)>,
    name: Seq<char>,
)
    requires
        are_facts(blanks, fs),
        fs.len() > 0,
        ends_facts(name),
        trimmed(name).len() > 0,
    ensures
        ({
            let tells = |known: Seq<char>|
                exists|i: int| 0 <= i < fs.len() && lower_all(#[trigger] fs[i].0) == known;
            mlsd_entry(fact_text(blanks, fs) + name) matches Some(e) && {
                &&& e.name == trimmed(name)
                &&& !tells("type"@) ==> !e.is_dir
                &&& !tells("size"@) ==> e.size == 0
                &&& !tells("modify"@) ==> e.modified.is_none()
                &&& !tells("unix.mode"@) ==> e.perms.is_none()
                &&& tells("unix.mode"@) ==> e.perms.is_some()
            }
        }),
{
    facts_read_back(blanks, fs, name);
    lemma_untold(fs, "type"@);
    lemma_untold(fs, "size"@);
    lemma_untold(fs, "modify"@);
    lemma_untold(fs, "unix.mode"@);
}

proof fn lemma_untold(fs: Seq<(Seq<char>, Seq<char>)>, known: Seq<char>)
    ensures
        last_fact(fs, known).is_some() <==> exists|i: int|
            0 <= i < fs.len() && lower_all(#[trigger] fs[i].0) == known,
    decreases fs.len(),
{
    if fs.len() > 0 {
        let rest = fs.drop_last();
        lemma_untold(rest, known);
        assert(fs.last() == fs[fs.len() - 1]);
        if last_fact(rest, known).is_some() {
            let i = choose|i: int| 0 <= i < rest.len() && lower_all(#[trigger] rest[i].0) == known;
            assert(lower_all(fs[i].0) == known);
        }
        if exists|i: int| 0 <= i < fs.len() && lower_all(#[trigger] fs[i].0) == known {
            let i = choose|i: int| 0 <= i < fs.len() && lower_all(#[trigger] fs[i].0) == known;
            if i < rest.len() {
                assert(lower_all(rest[i].0) == known);
            }
        }
    }
}

/// The letters of a permission column: the kind of the file first, and then what one may do.
pub proof fn permission_columns_are_made_of_their_letters(s: Seq<char>)
    ensures
        is_perm_column(s) <==> s.len() == 10 && "-dlcbsp"@.contains(s[0]) && forall|i: int|
            1 <= i < 10 ==> "rwx-sStT"@.contains(#[trigger] s[i]),
{
    reveal_strlit("-dlcbsp");
    reveal_strlit("rwx-sStT");
    let (kinds, letters) = ("-dlcbsp"@, "rwx-sStT"@);
    assert forall|c: char| kinds.contains(c) == #[trigger] is_kind(c) by {
        assert(kinds[0] == '-' && kinds[1] == 'd' && kinds[2] == 'l' && kinds[3] == 'c' && kinds[4]
            == 'b' && kinds[5] == 's' && kinds[6] == 'p');
    }
    assert forall|c: char| letters.contains(c) == #[trigger] is_perm(c) by {
        assert(letters[0] == 'r' && letters[1] == 'w' && letters[2] == 'x' && letters[3] == '-'
            && letters[4] == 's' && letters[5] == 'S' && letters[6] == 't' && letters[7] == 'T');
    }
    if s.len() == 10 {
        assert(kinds.contains(s[0]) == is_kind(s[0]));
        assert forall|i: int| 1 <= i < 10 implies letters.contains(#[trigger] s[i]) == is_perm(
            s[i],
        ) by {}
        if is_perm_column(s) {
            assert forall|i: int| 1 <= i < 10 implies letters.contains(#[trigger] s[i]) by {
                assert(is_perm(s[i]));
            }
        }
        if forall|i: int| 1 <= i < 10 ==> letters.contains(#[trigger] s[i]) {
            assert forall|i: int| 1 <= i < 10 implies is_perm(#[trigger] s[i]) by {
                assert(letters.contains(s[i]));
            }
        }
    }
}

/// Times of day that no clock shows are refused: in a Unix line past 23:59, and by the twelve-hour
/// clock before 1:00 and past 12:59. A time of the twelve-hour clock without a mark is one before
/// noon.
pub proof fn impossible_times_are_refused(
    hour: int,
    minute: int,
    month: int,
    day: int,
    now: int,
)
    requires
        0 <= hour <= 9999,
        0 <= minute <= 9999,
    ensures
        ({
            let time = decimal(hour) + seq![':'] + decimal(minute);
            &&& hour > 23 || minute > 59 ==> unix_time(time, month, day, now).is_none()
            &&& hour < 1 || hour > 12 || minute > 59 ==> ampm_time(time).is_none() && ampm_time(
                time + "AM"@,
            ).is_none() && ampm_time(time + "PM"@).is_none()
            &&& 1 <= hour <= 12 && minute <= 59 ==> ampm_time(time) == Some((hour, minute, false))
                && ampm_time(time + "AM"@) == ampm_time(time) && ampm_time(time + "PM"@) == Some(
                (hour, minute, true),
            )
        }),
{
    let (h, m) = (decimal(hour), decimal(minute));
    let time = h + seq![':'] + m;
    lemma_digits_are_plain(hour);
    lemma_digits_are_plain(minute);
    assert(!h.contains(':'));
    cut_undoes_join(h, ':', m);
    decimal_reads_back(hour, u32::MAX as int);
    decimal_reads_back(minute, u32::MAX as int);
    lemma_marked(time, "AM"@, "am"@);
    lemma_marked(time, "PM"@, "pm"@);
    reveal_strlit("am");
    reveal_strlit("pm");
    let n = time.len();
    let tail = time.skip(n - 2);
    assert(tail[1] == m[m.len() - 1]);
    assert(lower_all(tail)[1] == tail[1]);
    assert(lower_all(tail) != "am"@ && lower_all(tail) != "pm"@);
    assert("am"@[0] != "pm"@[0]);
}

proof fn lemma_marked(time: Seq<char>, mark: Seq<char>, lowered: Seq<char>)
    requires
        (mark == "AM"@ && lowered == "am"@) || (mark == "PM"@ && lowered == "pm"@),
    ensures
        ({
            let s = time + mark;
            &&& s.len() >= 2
            &&& lower_all(s.skip(s.len() - 2)) == lowered
            &&& s.take(s.len() - 2) == time
        }),
{
    reveal_strlit("AM");
    reveal_strlit("PM");
    reveal_strlit("am");
    reveal_strlit("pm");
    let s = time + mark;
    assert(s.skip(s.len() - 2) =~= mark);
    assert(lower_all(mark) =~= lowered);
    assert(s.take(s.len() - 2) =~= time);
}

/// Dates that no calendar has are refused: a month past December, and in a Windows or an MLSD line
/// a day past the 31st.
pub proof fn impossible_dates_are_refused(month: int, day: int, year: int)
    requires
        0 <= month <= 99,
        0 <= day <= 99,
        0 <= year <= 9999,
        month < 1 || month > 12 || day < 1 || day > 31,
    ensures
        windows_date(decimal(month) + seq!['-'] + decimal(day) + seq!['-'] + decimal(year)).is_none(),
        mlsd_time(mlsd_stamp(year, month, day, 0, 0, 0)).is_none(),
{
    let (m, d, y) = (decimal(month), decimal(day), decimal(year));
    let date = m + seq!['-'] + d + seq!['-'] + y;
    lemma_digits_are_plain(month);
    lemma_digits_are_plain(day);
    let rest = d + seq!['-'] + y;
    assert(cut_date(date) == Some((m, rest))) by {
        assert(date =~= m + seq!['-'] + rest);
        lemma_number_len(m, '-', rest);
    }
    assert(cut_date(rest) == Some((d, y))) by {
        lemma_number_len(d, '-', y);
    }
    decimal_reads_back(month, u32::MAX as int);
    decimal_reads_back(day, u32::MAX as int);
    lemma_stamp_is_digits(year, month, day, 0, 0, 0);
    lemma_stamp_parts(year, month, day, 0, 0, 0);
    lemma_two_digits(month);
    lemma_two_digits(day);
    lemma_impossible_stamp(mlsd_stamp(year, month, day, 0, 0, 0));
}

proof fn lemma_impossible_stamp(d: Seq<char>)
    requires
        d.len() == 14,
        forall|i: int| 0 <= i < 14 ==> is_digit(#[trigger] d[i], 10),
        ({
            let month = digits_value(d.subrange(4, 6), 10);
            let day = digits_value(d.subrange(6, 8), 10);
            month < 1 || month > 12 || day < 1 || day > 31
        }),
    ensures
        mlsd_time(d).is_none(),
{
    let keep = |c: char| is_digit(c, 10);
    assert forall|i: int| 0 <= i < d.len() implies keep(#[trigger] d[i]) by {}
    lemma_all_kept(d, keep);
}

/// Every line that one of the formats can be read from is read by it, and MLSD, Unix and Windows
/// have their turn in this order.
pub proof fn every_format_has_its_turn(line: Seq<char>, now: int)
    requires
        trimmed(line).len() > 0,
        !is_total(trimmed(line)),
    ensures
        ({
            let t = trimmed(line);
            &&& listing_entry(line, now).is_some() <==> mlsd_entry(t).is_some() || unix_entry(
                t,
                now,
            ).is_some() || windows_entry(t).is_some()
            &&& mlsd_entry(t).is_none() && unix_entry(t, now).is_some() ==> listing_entry(line, now)
                == unix_entry(t, now)
            &&& mlsd_entry(t).is_none() && windows_entry(t).is_some() ==> listing_entry(line, now)
                == windows_entry(t)
        }),
{
    let t = trimmed(line);
    if windows_entry(t).is_some() {
        lemma_date_is_no_perm_column(words(t)[0]);
    }
}

/// The mark of a directory in a Windows line may be written in any case of the letters.
pub proof fn directory_marks_have_any_case(a: Seq<char>, b: Seq<char>, mark: Seq<char>)
    requires
        words(a).len() >= 4,
        lower_all(words(a)[2]) == "<dir>"@,
        lower_all(mark) == "<dir>"@,
        words(b) == words(a).update(2, mark),
    ensures
        windows_entry(a) == windows_entry(b),
        windows_entry(a) matches Some(e) ==> e.is_dir && e.size == 0,
{
    reveal_strlit("<DIR>");
    reveal_strlit("<dir>");
    assert(lower_all("<DIR>"@) =~= "<dir>"@);
    assert(words(a).skip(3) =~= words(b).skip(3));
}

proof fn lemma_without_zeros(s: Seq<char>)
    requires
        forall|i: int| 0 <= i < s.len() ==> is_digit(#[trigger] s[i], 8),
    ensures
        digits_value(without_zeros(s), 8) == digits_value(s, 8),
        forall|i: int|
            0 <= i < without_zeros(s).len() ==> is_digit(#[trigger] without_zeros(s)[i], 8),
    decreases s.len(),
{
    if s.len() > 0 && s[0] == '0' {
        let rest = s.drop_first();
        assert forall|i: int| 0 <= i < rest.len() implies is_digit(#[trigger] rest[i], 8) by {
            assert(rest[i] == s[i + 1]);
        }
        lemma_without_zeros(rest);
        lemma_first_digit(s);
    }
}

proof fn lemma_first_digit(s: Seq<char>)
    requires
        s.len() > 0,
        s[0] == '0',
    ensures
        digits_value(s, 8) == digits_value(s.drop_first(), 8),
    decreases s.len(),
{
    if s.len() == 1 {
        assert(s.drop_last() =~= Seq::<char>::empty());
        assert(s.drop_first() =~= Seq::<char>::empty());
        reveal_with_fuel(digits_value, 2);
    } else {
        lemma_first_digit(s.drop_last());
        assert(s.drop_last().drop_first() =~= s.drop_first().drop_last());
    }
}

/// Of a mode in octal only the last three digits count, whatever stands before them.
pub proof fn last_three_digits_of_a_mode_count(
    more: Seq<char>,
    owner: int,
    group: int,
    others: int,
)
    requires
        forall|i: int| 0 <= i < more.len() ==> is_digit(#[trigger] more[i], 8),
        0 <= owner < 8,
        0 <= group < 8,
        0 <= others < 8,
        512 * digits_value(more, 8) + 511 <= u32::MAX,
        0 <= digits_value(more, 8),
    ensures
        octal_perms(more + seq![digit_char(owner), digit_char(group), digit_char(others)])
            == digit_letters(owner) + digit_letters(group) + digit_letters(others),
{
    let (a, b, c) = (digit_char(owner), digit_char(group), digit_char(others));
    let text = more + seq![a, b, c];
    let rest = digits_value(more, 8);
    assert forall|i: int| 0 <= i < text.len() implies is_digit(#[trigger] text[i], 8) by {
        if i < more.len() {
            assert(text[i] == more[i]);
        }
    }
    lemma_without_zeros(text);
    let two = text.drop_last();
    let one = two.drop_last();
    assert(two =~= more + seq![a, b]);
    assert(one =~= more + seq![a]);
    assert(one.drop_last() =~= more);
    assert(digits_value(one, 8) == rest * 8 + owner);
    assert(digits_value(two, 8) == (rest * 8 + owner) * 8 + group);
    let mode = 512 * rest + 64 * owner + 8 * group + others;
    assert(digits_value(text, 8) == mode);
    modes_are_shown_digit_by_digit(rest, owner, group, others);
    let left = without_zeros(text);
    if left.len() == 0 {
        assert(digits_value(left, 8) == 0);
        assert(mode == 0);
    } else {
        assert(is_digit(left[0], 8));
        assert(unsigned_part(left) == left);
    }
}

/// Where an MLSD line tells a fact twice, the later one counts.
pub proof fn later_facts_count(
    fs: Seq<(Seq<char>, Seq<char>)>,
    fact: (Seq<char>, Seq<char>),
    name: Seq<char>,
)
    ensures
        last_fact(fs.push(fact), name) == if lower_all(fact.0) == name {
            Some(fact.1)
        } else {
            last_fact(fs, name)
        },
{
    assert(fs.push(fact).drop_last() =~= fs);
}

/// A fact that cannot be read does not cost the line its entry: a size that is no number counts as
/// 0, a mode that ends with no octal digit allows nothing, a time of fewer than 14 characters is
/// not known, and a kind that does not end as that of a directory does is that of a file.
pub proof fn unreadable_facts_count_for_nothing(
    blanks: Seq<Seq<char>>,
    fs: Seq<(Seq<char>, Seq<char>)>,
    name: Seq<char>,
)
    requires
        are_facts(blanks, fs),
        fs.len() > 0,
        ends_facts(name),
        trimmed(name).len() > 0,
    ensures
        ({
            let value = fs.last().1;
            let is = |known: Seq<char>| lower_all(fs.last().0) == known;
            mlsd_entry(fact_text(blanks, fs) + name) matches Some(e) && {
                &&& is("size"@) && !is_number(unsigned_part(value), 10) ==> e.size == 0
                &&& is("modify"@) && value.len() < 14 ==> e.modified.is_none()
                &&& is("unix.mode"@) && value.len() > 0 && !is_digit(value.last(), 8) ==> e.perms
                    == Some("---------"@)
                &&& is("type"@) && value.len() > 0 && lower(value.last()) != 'r' ==> !e.is_dir
            }
        }),
{
    let value = fs.last().1;
    facts_read_back(blanks, fs, name);
    lemma_lower_names();
    reveal_strlit("---------");
    reveal_strlit("dir");
    reveal_strlit("cdir");
    reveal_strlit("pdir");
    assert(last_fact(fs, lower_all(fs.last().0)) == Some(value));
    assert(perm_text(0) =~= "---------"@);
    if value.len() < 14 {
        value.lemma_filter_len(|c: char| is_digit(c, 10));
    }
    if value.len() > 0 {
        assert(lower_all(value).last() == lower(value.last()));
        if !is_digit(value.last(), 8) {
            lemma_last_is_kept(value);
            let d = unsigned_part(without_zeros(value));
            if d.len() > 0 {
                assert(d.last() == value.last());
                assert(!is_digit(d[d.len() - 1], 8));
            }
        }
    }
}

proof fn lemma_last_is_kept(s: Seq<char>)
    requires
        s.len() > 0,
        s.last() != '0',
    ensures
        without_zeros(s).len() > 0,
        without_zeros(s).last() == s.last(),
    decreases s.len(),
{
    if s[0] == '0' {
        assert(s.drop_first().last() == s.last());
        lemma_last_is_kept(s.drop_first());
    }
}

/// A reading of the clock is taken as it is, and one that there is not, or that is too large to be
/// held, as the beginning of 1970.
pub proof fn readings_are_taken_as_they_are(reading: Option<u64>, now: i64)
    requires
        call_ensures(instant_of, (reading,), now),
    ensures
        now >= 0,
        now > 0 ==> reading == Some(now as u64),
        reading matches Some(s) ==> (s <= i64::MAX ==> now == s),
{
}

} // verus!

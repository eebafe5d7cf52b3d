//! Directory listings: MLSD facts, Unix `ls` lines and Windows `dir` lines.

use vstd::prelude::*;

use crate::calendar::{
    checked_ts, civil_seconds, dates_come_back_within_366_days, day_does_not_pass_its_year,
    second_number, timestamp, year_at, year_at_holds_the_instant, year_of, year_starts_follow,
};
pub use crate::ftp::order::sort_entries;
use crate::ftp::types::{EntryView, FileEntry};
use crate::text::{
    ascii_lower, before, begins_with, chars_of, cut, cut_undoes_join, decimal,
    decimal_is_made_of_digits, decimal_reads_back, digits_value, eq_ignore_case, is_digit,
    is_number, is_white, is_word, join_spaced, lemma_cut, lower, lower_all, parse_signed,
    parse_unsigned, same_str, signed_value, spaced, split_before, split_once, split_words,
    starts_with, string_of, trim, trimmed, trimmed_has_no_white_ends, trimmed_ignores_ends,
    unsigned_part, unsigned_value, words, words_undo_spaced,
};

verus! {

/// Whether `c` tells the kind of a file at the head of a permission column.
pub open spec fn is_kind(c: char) -> bool {
    c == '-' || c == 'd' || c == 'l' || c == 'c' || c == 'b' || c == 's' || c == 'p'
}

/// Whether `c` can stand behind the kind in a permission column.
pub open spec fn is_perm(c: char) -> bool {
    c == 'r' || c == 'w' || c == 'x' || c == '-' || c == 's' || c == 'S' || c == 't' || c == 'T'
}

/// Whether `s` is a permission column such as `drwxr-xr-x`.
pub open spec fn is_perm_column(s: Seq<char>) -> bool {
    &&& s.len() == 10
    &&& is_kind(s[0])
    &&& forall|i: int| 1 <= i < 10 ==> is_perm(#[trigger] s[i])
}

/// The month that `token` begins with, in any case of the letters.
pub open spec fn month_number(token: Seq<char>) -> Option<int> {
    let m = lower_all(token).take(3);
    if token.len() < 3 {
        None
    } else if m == "jan"@ {
        Some(1)
    } else if m == "feb"@ {
        Some(2)
    } else if m == "mar"@ {
        Some(3)
    } else if m == "apr"@ {
        Some(4)
    } else if m == "may"@ {
        Some(5)
    } else if m == "jun"@ {
        Some(6)
    } else if m == "jul"@ {
        Some(7)
    } else if m == "aug"@ {
        Some(8)
    } else if m == "sep"@ {
        Some(9)
    } else if m == "oct"@ {
        Some(10)
    } else if m == "nov"@ {
        Some(11)
    } else if m == "dec"@ {
        Some(12)
    } else {
        None
    }
}

/// The instant that a date without a year means at `now`: the one in the year of `now`, or, where
/// that lies more than a day ahead, the one in the year before.
pub open spec fn recent_seconds(month: int, day: int, hour: int, minute: int, now: int) -> int {
    let y = year_at(now);
    let t = civil_seconds(y, month, day, hour, minute);
    if t - now > 86_400 {
        civil_seconds(y - 1, month, day, hour, minute)
    } else {
        t
    }
}

/// The instant that the month, the day and the third time column of a Unix line mean at `now`.
/// The column holds a year, or the time of day where the year is not told.
pub open spec fn unix_time(column: Seq<char>, month: int, day: int, now: int) -> Option<i64> {
    match cut(column, ':') {
        Some((hh, mm)) => match (
            unsigned_value(hh, 10, u32::MAX as int),
            unsigned_value(mm, 10, u32::MAX as int),
        ) {
            (Some(h), Some(m)) => {
                let t = recent_seconds(month, day, h, m, now);
                if h <= 23 && m <= 59 && i64::MIN <= t <= i64::MAX {
                    Some(t as i64)
                } else {
                    None
                }
            },
            _ => None,
        },
        None => match signed_value(column, i64::MAX as int) {
            Some(y) => if 1970 <= y <= 2200 {
                timestamp(y, month, day, 0, 0)
            } else {
                None
            },
            None => None,
        },
    }
}

/// What a line of a Unix listing says at `now`: permissions, links, owner, group, size, month,
/// day, time or year, and the name up to the arrow of a link.
pub open spec fn unix_entry(line: Seq<char>, now: int) -> Option<EntryView> {
    let f = words(line);
    if f.len() < 9 || !is_perm_column(f[0]) {
        None
    } else {
        match (
            unsigned_value(f[4], 10, u64::MAX as int),
            month_number(f[5]),
            unsigned_value(f[6], 10, u32::MAX as int),
        ) {
            (Some(size), Some(month), Some(day)) => {
                let name = before(spaced(f.skip(8)), " -> "@);
                match unix_time(f[7], month, day, now) {
                    Some(t) => if name.len() > 0 {
                        Some(
                            EntryView {
                                name,
                                is_dir: f[0][0] == 'd' || f[0][0] == 'l',
                                size: size as u64,
                                modified: Some(t),
                                perms: Some(f[0]),
                            },
                        )
                    } else {
                        None
                    },
                    None => None,
                }
            },
            _ => None,
        }
    }
}

/// Whether `s` is a permission column.
fn perm_column(s: &[char]) -> (r: bool)
    ensures
        r == is_perm_column(s@),
{
    if s.len() != 10 {
        return false;
    }
    let k = s[0];
    if !(k == '-' || k == 'd' || k == 'l' || k == 'c' || k == 'b' || k == 's' || k == 'p') {
        return false;
    }
    for i in 1..10usize
        invariant
            s@.len() == 10,
            forall|j: int| 1 <= j < i ==> is_perm(#[trigger] s@[j]),
    {
        let c = s[i];
        if !(c == 'r' || c == 'w' || c == 'x' || c == '-' || c == 's' || c == 'S' || c == 't' || c
            == 'T') {
            assert(!is_perm(s@[i as int]));
            return false;
        }
    }
    true
}

/// The month that `token` begins with, in any case of the letters.
fn month_index(token: &[char]) -> (r: Option<u32>)
    ensures
        match r {
            Some(m) => month_number(token@) == Some(m as int) && 1 <= m <= 12,
            None => month_number(token@).is_none(),
        },
{
    if token.len() < 3 {
        return None;
    }
    let mut m: Vec<char> = Vec::new();
    for i in 0..3usize
        invariant
            token@.len() >= 3,
            m@ == lower_all(token@).take(i as int),
    {
        m.push(ascii_lower(token[i]));
        assert(m@ =~= lower_all(token@).take(i + 1));
    }
    let m = m.as_slice();
    if same_str(m, "jan") {
        Some(1)
    } else if same_str(m, "feb") {
        Some(2)
    } else if same_str(m, "mar") {
        Some(3)
    } else if same_str(m, "apr") {
        Some(4)
    } else if same_str(m, "may") {
        Some(5)
    } else if same_str(m, "jun") {
        Some(6)
    } else if same_str(m, "jul") {
        Some(7)
    } else if same_str(m, "aug") {
        Some(8)
    } else if same_str(m, "sep") {
        Some(9)
    } else if same_str(m, "oct") {
        Some(10)
    } else if same_str(m, "nov") {
        Some(11)
    } else if same_str(m, "dec") {
        Some(12)
    } else {
        None
    }
}

/// The instant that a date without a year means at `now`.
fn recent_ts(month: u32, day: u32, hour: u32, minute: u32, now: i64) -> (r: Option<i64>)
    requires
        1 <= month <= 12,
    ensures
        ({
            let t = recent_seconds(
                month as int,
                day as int,
                hour as int,
                minute as int,
                now as int,
            );
            r == if i64::MIN <= t <= i64::MAX {
                Some(t as i64)
            } else {
                None
            }
        }),
{
    let year = year_of(now);
    let mut t = second_number(year, month, day, hour, minute);
    if t - now as i128 > 86_400 {
        t = second_number(year - 1, month, day, hour, minute);
    }
    if i64::MIN as i128 <= t && t <= i64::MAX as i128 {
        Some(t as i64)
    } else {
        None
    }
}

/// The instant that the time columns of a Unix line mean at `now`.
fn unix_ts(column: &[char], month: u32, day: u32, now: i64) -> (r: Option<i64>)
    requires
        1 <= month <= 12,
    ensures
        r == unix_time(column@, month as int, day as int, now as int),
{
    match split_once(column, ':') {
        Some((hh, mm)) => {
            let h = parse_unsigned(hh, 10, u32::MAX as u64)?;
            let m = parse_unsigned(mm, 10, u32::MAX as u64)?;
            if h > 23 || m > 59 {
                return None;
            }
            recent_ts(month, day, h as u32, m as u32, now)
        },
        None => {
            let year = parse_signed(column)?;
            if !(1970 <= year && year <= 2200) {
                return None;
            }
            checked_ts(year, month, day, 0, 0)
        },
    }
}

/// Reads one line of a Unix listing; a time without a year is read as of `now`.
pub fn parse_unix(line: &str, now: i64) -> (r: Option<FileEntry>)
    ensures
        r.deep_view() == unix_entry(line@, now as int),
{
    let chars = chars_of(line);
    unix_line(chars.as_slice(), now)
}

fn unix_line(line: &[char], now: i64) -> (r: Option<FileEntry>)
    ensures
        r.deep_view() == unix_entry(line@, now as int),
{
    let fields = split_words(line);
    let ghost f = fields.deep_view();
    assert(forall|i: int| 0 <= i < fields@.len() ==> f[i] =~= #[trigger] fields@[i]@);
    if fields.len() < 9 || !perm_column(fields[0]) {
        return None;
    }
    let size = parse_unsigned(fields[4], 10, u64::MAX)?;
    let month = month_index(fields[5])?;
    let day = parse_unsigned(fields[6], 10, u32::MAX as u64)?;
    let modified = unix_ts(fields[7], month, day as u32, now)?;
    let joined = join_spaced(&fields, 8);
    let name = split_before(joined.as_slice(), " -> ");
    if name.len() == 0 {
        return None;
    }
    let perms = fields[0];
    Some(
        FileEntry {
            name: string_of(name),
            is_dir: perms[0] == 'd' || perms[0] == 'l',
            size,
            modified: Some(modified),
            perms: Some(string_of(perms)),
        },
    )
}

/// Whether `c` parts the numbers of a Windows date.
pub open spec fn is_date_mark(c: char) -> bool {
    c == '-' || c == '/'
}

/// How many characters stand before the first date mark of `s`.
pub open spec fn number_len(s: Seq<char>) -> nat
    decreases s.len(),
{
    if s.len() > 0 && !is_date_mark(s[0]) {
        1 + number_len(s.drop_first())
    } else {
        0
    }
}

/// The parts of `s` before and after its first date mark.
pub open spec fn cut_date(s: Seq<char>) -> Option<(Seq<char>, Seq<char>)> {
    let n = number_len(s) as int;
    if n < s.len() {
        Some((s.take(n), s.skip(n + 1)))
    } else {
        None
    }
}

/// The day that a Windows date means, as year, month and day. The date is written month first,
/// with two marks in it, and a year before 100 counts from 2000.
pub open spec fn windows_date(s: Seq<char>) -> Option<(int, int, int)> {
    match cut_date(s) {
        Some((mm, rest)) => match cut_date(rest) {
            Some((dd, yy)) => match (
                unsigned_value(mm, 10, u32::MAX as int),
                unsigned_value(dd, 10, u32::MAX as int),
                signed_value(yy, i64::MAX as int),
            ) {
                (Some(month), Some(day), Some(year)) => if cut_date(yy).is_none() && 1 <= month
                    <= 12 && 1 <= day <= 31 {
                    Some(
                        (
                            if year < 100 {
                                year + 2000
                            } else {
                                year
                            },
                            month,
                            day,
                        ),
                    )
                } else {
                    None
                },
                _ => None,
            },
            None => None,
        },
        None => None,
    }
}

/// What a time of a twelve-hour clock says: the hour from 1 to 12, the minute, and whether it is
/// marked as after noon. The marks are `AM` and `PM`, in any case; without one, it is before noon.
pub open spec fn ampm_time(token: Seq<char>) -> Option<(int, int, bool)> {
    let n = token.len();
    let mark = lower_all(token.skip(n - 2));
    let pm = n >= 2 && mark == "pm"@;
    let body = if pm || (n >= 2 && mark == "am"@) {
        token.take(n - 2)
    } else {
        token
    };
    match cut(body, ':') {
        Some((hh, mm)) => match (
            unsigned_value(hh, 10, u32::MAX as int),
            unsigned_value(mm, 10, u32::MAX as int),
        ) {
            (Some(h), Some(m)) => if 1 <= h <= 12 && m <= 59 {
                Some((h, m, pm))
            } else {
                None
            },
            _ => None,
        },
        None => None,
    }
}

/// The hour of the day that an hour of the twelve-hour clock means: twelve comes before one.
pub open spec fn hour_of_day(hour: int, pm: bool) -> int {
    hour % 12 + if pm {
        12int
    } else {
        0
    }
}

/// What a line of a Windows listing says: date, time, size or `<DIR>`, and name.
pub open spec fn windows_entry(line: Seq<char>) -> Option<EntryView> {
    let f = words(line);
    if f.len() < 4 {
        None
    } else {
        let is_dir = lower_all(f[2]) == lower_all("<DIR>"@);
        let name = spaced(f.skip(3));
        let size = if is_dir {
            Some(0int)
        } else {
            unsigned_value(f[2], 10, u64::MAX as int)
        };
        match (windows_date(f[0]), ampm_time(f[1]), size) {
            (Some((year, month, day)), Some((hour, minute, pm)), Some(size)) => {
                let t = timestamp(year, month, day, hour_of_day(hour, pm), minute);
                if t.is_some() && name.len() > 0 {
                    Some(EntryView { name, is_dir, size: size as u64, modified: t, perms: None })
                } else {
                    None
                }
            },
            _ => None,
        }
    }
}

/// The parts of `s` before and after its first date mark.
fn split_date<'a>(s: &'a [char]) -> (r: Option<(&'a [char], &'a [char])>)
    ensures
        match r {
            Some(p) => cut_date(s@) == Some((p.0@, p.1@)),
            None => cut_date(s@).is_none(),
        },
{
    let mut n: usize = 0;
    let len: usize = s.len();
    assert(s@.skip(0) =~= s@);
    while n < len && !(s[n] == '-' || s[n] == '/')
        invariant
            n <= len == s@.len(),
            number_len(s@) == n + number_len(s@.skip(n as int)),
        decreases len - n,
    {
        assert(s@.skip(n as int).drop_first() =~= s@.skip(n + 1));
        n += 1;
    }
    if n < len {
        let head = vstd::slice::slice_subrange(s, 0, n);
        let tail = vstd::slice::slice_subrange(s, n + 1, len);
        assert(head@ =~= s@.take(n as int));
        assert(tail@ =~= s@.skip(n + 1));
        Some((head, tail))
    } else {
        None
    }
}

/// The day that a Windows date means, as year, month and day.
fn parse_date(s: &[char]) -> (r: Option<(i64, u32, u32)>)
    ensures
        match r {
            Some(d) => windows_date(s@) == Some((d.0 as int, d.1 as int, d.2 as int)) && 1 <= d.1
                <= 12,
            None => windows_date(s@).is_none(),
        },
{
    let (mm, rest) = split_date(s)?;
    let (dd, yy) = split_date(rest)?;
    if split_date(yy).is_some() {
        return None;
    }
    let month = parse_unsigned(mm, 10, u32::MAX as u64)?;
    let day = parse_unsigned(dd, 10, u32::MAX as u64)?;
    let year = parse_signed(yy)?;
    if !(1 <= month && month <= 12) || !(1 <= day && day <= 31) {
        return None;
    }
    Some((if year < 100 { year + 2000 } else { year }, month as u32, day as u32))
}

/// What a time of a twelve-hour clock says.
fn parse_ampm_time(token: &[char]) -> (r: Option<(u32, u32, bool)>)
    ensures
        match r {
            Some(t) => ampm_time(token@) == Some((t.0 as int, t.1 as int, t.2)) && 1 <= t.0 <= 12,
            None => ampm_time(token@).is_none(),
        },
{
    let n: usize = token.len();
    let mut body = token;
    let mut pm: bool = false;
    if n >= 2 {
        let mark = vstd::slice::slice_subrange(token, n - 2, n);
        let head = vstd::slice::slice_subrange(token, 0, n - 2);
        assert(mark@ =~= token@.skip(n - 2));
        assert(head@ =~= token@.take(n - 2));
        let am_mark = chars_of("am");
        let pm_mark = chars_of("pm");
        proof {
            reveal_strlit("am");
            reveal_strlit("pm");
            assert(lower_all("am"@) =~= "am"@);
            assert(lower_all("pm"@) =~= "pm"@);
        }
        if eq_ignore_case(mark, pm_mark.as_slice()) {
            pm = true;
            body = head;
        } else if eq_ignore_case(mark, am_mark.as_slice()) {
            body = head;
        }
    }
    let (hh, mm) = split_once(body, ':')?;
    let h = parse_unsigned(hh, 10, u32::MAX as u64)?;
    let m = parse_unsigned(mm, 10, u32::MAX as u64)?;
    if !(1 <= h && h <= 12) || m > 59 {
        return None;
    }
    Some((h as u32, m as u32, pm))
}

/// Reads one line of a Windows listing.
pub fn parse_windows(line: &str) -> (r: Option<FileEntry>)
    ensures
        r.deep_view() == windows_entry(line@),
{
    let chars = chars_of(line);
    windows_line(chars.as_slice())
}

#[verifier::spinoff_prover]
fn windows_line(line: &[char]) -> (r: Option<FileEntry>)
    ensures
        r.deep_view() == windows_entry(line@),
{
    let fields = split_words(line);
    let ghost f = fields.deep_view();
    assert(forall|i: int| 0 <= i < fields@.len() ==> f[i] =~= #[trigger] fields@[i]@);
    if fields.len() < 4 {
        return None;
    }
    let (year, month, day) = parse_date(fields[0])?;
    let (hour12, minute, pm) = parse_ampm_time(fields[1])?;
    let hour: u32 = if hour12 == 12 {
        if pm {
            12
        } else {
            0
        }
    } else if pm {
        hour12 + 12
    } else {
        hour12
    };
    let dir_mark = chars_of("<DIR>");
    let is_dir = eq_ignore_case(fields[2], dir_mark.as_slice());
    let size: u64 = if is_dir {
        0
    } else {
        parse_unsigned(fields[2], 10, u64::MAX)?
    };
    let modified = checked_ts(year, month, day, hour, minute)?;
    let name = join_spaced(&fields, 3);
    if name.len() == 0 {
        return None;
    }
    Some(
        FileEntry {
            name: string_of(name.as_slice()),
            is_dir,
            size,
            modified: Some(modified),
            perms: None,
        },
    )
}

/// The facts at the head of an MLSD line, each a name and a value, and what follows them. A fact
/// ends with a semicolon and has an equals sign; the first piece without one ends the facts.
pub open spec fn facts(s: Seq<char>) -> (Seq<(Seq<char>, Seq<char>)>, Seq<char>)
    decreases s.len(),
{
    match cut(s, ';') {
        Some((head, tail)) => match cut(trimmed(head), '=') {
            Some(fact) => {
                proof {
                    lemma_cut(s, ';');
                    assert((head + seq![';'] + tail).len() == head.len() + 1 + tail.len());
                }
                let (rest_facts, name) = facts(tail);
                (seq![fact] + rest_facts, name)
            },
            None => (Seq::empty(), s),
        },
        None => (Seq::empty(), s),
    }
}

/// The value of the last fact of the given name, in any case of the letters.
pub open spec fn last_fact(fs: Seq<(Seq<char>, Seq<char>)>, name: Seq<char>) -> Option<Seq<char>>
    decreases fs.len(),
{
    if fs.len() == 0 {
        None
    } else if lower_all(fs.last().0) == name {
        Some(fs.last().1)
    } else {
        last_fact(fs.drop_last(), name)
    }
}

/// The instant that an MLSD time such as `20240112103000` means, to the minute. Characters that
/// are no digits do not count.
pub open spec fn mlsd_time(value: Seq<char>) -> Option<i64> {
    let d = value.filter(|c: char| is_digit(c, 10));
    let year = digits_value(d.subrange(0, 4), 10);
    let month = digits_value(d.subrange(4, 6), 10);
    let day = digits_value(d.subrange(6, 8), 10);
    let hour = digits_value(d.subrange(8, 10), 10);
    let minute = digits_value(d.subrange(10, 12), 10);
    if d.len() >= 14 && 1 <= month <= 12 && 1 <= day <= 31 && hour <= 23 && minute <= 59 {
        timestamp(year, month, day, hour, minute)
    } else {
        None
    }
}

/// The letter where the bit that stands for `bit` is set in `mode`, else a dash.
pub open spec fn perm_letter(mode: int, bit: int, letter: char) -> char {
    if mode / bit % 2 == 1 {
        letter
    } else {
        '-'
    }
}

/// The nine permission letters of a file mode.
pub open spec fn perm_text(mode: int) -> Seq<char> {
    seq![
        perm_letter(mode, 256, 'r'),
        perm_letter(mode, 128, 'w'),
        perm_letter(mode, 64, 'x'),
        perm_letter(mode, 32, 'r'),
        perm_letter(mode, 16, 'w'),
        perm_letter(mode, 8, 'x'),
        perm_letter(mode, 4, 'r'),
        perm_letter(mode, 2, 'w'),
        perm_letter(mode, 1, 'x'),
    ]
}

/// `s` without the zeros at its head.
pub open spec fn without_zeros(s: Seq<char>) -> Seq<char>
    decreases s.len(),
{
    if s.len() > 0 && s[0] == '0' {
        without_zeros(s.drop_first())
    } else {
        s
    }
}

/// The permission letters of a mode in octal; a text that is no mode counts as zero.
pub open spec fn octal_perms(mode: Seq<char>) -> Seq<char> {
    match unsigned_value(without_zeros(mode), 8, u32::MAX as int) {
        Some(n) => perm_text(n),
        None => perm_text(0),
    }
}

/// What an MLSD line says: facts and a name.
pub open spec fn mlsd_entry(line: Seq<char>) -> Option<EntryView> {
    let (fs, rest) = facts(line);
    let name = trimmed(rest);
    if fs.len() == 0 || name.len() == 0 {
        None
    } else {
        Some(
            EntryView {
                name,
                is_dir: match last_fact(fs, "type"@) {
                    Some(v) => {
                        ||| lower_all(v) == "dir"@
                        ||| lower_all(v) == "cdir"@
                        ||| lower_all(v) == "pdir"@
                    },
                    None => false,
                },
                size: match last_fact(fs, "size"@) {
                    Some(v) => match unsigned_value(v, 10, u64::MAX as int) {
                        Some(n) => n as u64,
                        None => 0,
                    },
                    None => 0,
                },
                modified: match last_fact(fs, "modify"@) {
                    Some(v) => mlsd_time(v),
                    None => None,
                },
                perms: match last_fact(fs, "unix.mode"@) {
                    Some(v) => Some(octal_perms(v)),
                    None => None,
                },
            },
        )
    }
}

/// What the pairs of texts say.
pub open spec fn pair_views(ps: Seq<(&[char], &[char])>) -> Seq<(Seq<char>, Seq<char>)> {
    ps.map_values(|p: (&[char], &[char])| (p.0@, p.1@))
}

/// The facts at the head of an MLSD line and what follows them.
fn split_facts<'a>(line: &'a [char]) -> (r: (Vec<(&'a [char], &'a [char])>, &'a [char]))
    ensures
        (pair_views(r.0@), r.1@) == facts(line@),
{
    let mut out: Vec<(&'a [char], &'a [char])> = Vec::new();
    let mut rest: &'a [char] = line;
    assert(pair_views(out@) + facts(rest@).0 =~= facts(line@).0);
    loop
        invariant
            pair_views(out@) + facts(rest@).0 == facts(line@).0,
            facts(rest@).1 == facts(line@).1,
        ensures
            pair_views(out@) == facts(line@).0,
            rest@ == facts(line@).1,
        decreases rest@.len(),
    {
        proof {
            lemma_cut(rest@, ';');
        }
        match split_once(rest, ';') {
            Some((head, tail)) => match split_once(trim(head), '=') {
                Some(fact) => {
                    let ghost before = pair_views(out@);
                    out.push(fact);
                    proof {
                        assert((head@ + seq![';'] + tail@).len() == head@.len() + 1 + tail@.len());
                        assert(pair_views(out@) =~= before.push((fact.0@, fact.1@)));
                        assert(before + facts(rest@).0 =~= pair_views(out@) + facts(tail@).0);
                    }
                    rest = tail;
                },
                None => {
                    assert(pair_views(out@) + facts(rest@).0 =~= pair_views(out@));
                    break;
                },
            },
            None => {
                assert(pair_views(out@) + facts(rest@).0 =~= pair_views(out@));
                break;
            },
        }
    }
    (out, rest)
}

/// Whether `s`, its ASCII letters in lower case, is the given text in lower case.
fn lowers_to(s: &[char], text: &str) -> (r: bool)
    requires
        lower_all(text@) == text@,
    ensures
        r == (lower_all(s@) == text@),
{
    let chars = chars_of(text);
    eq_ignore_case(s, chars.as_slice())
}

/// The value of the last fact of the given name.
fn last_value<'a>(fs: &Vec<(&'a [char], &'a [char])>, name: &str) -> (r: Option<&'a [char]>)
    requires
        lower_all(name@) == name@,
    ensures
        match r {
            Some(v) => last_fact(pair_views(fs@), name@) == Some(v@),
            None => last_fact(pair_views(fs@), name@).is_none(),
        },
{
    let mut n: usize = fs.len();
    let ghost all = pair_views(fs@);
    assert(all.take(n as int) =~= all);
    while n > 0
        invariant
            n <= fs@.len(),
            all == pair_views(fs@),
            lower_all(name@) == name@,
            last_fact(all, name@) == last_fact(all.take(n as int), name@),
        decreases n,
    {
        assert(all.take(n as int).drop_last() =~= all.take(n - 1));
        assert(all.take(n as int).last() == (fs@[n - 1].0@, fs@[n - 1].1@));
        if lowers_to(fs[n - 1].0, name) {
            return Some(fs[n - 1].1);
        }
        n -= 1;
    }
    None
}

/// The number that the digits of `s` from `from` up to `to` write.
fn digits_at(s: &[char], from: usize, to: usize) -> (r: u32)
    requires
        from < to <= s@.len(),
        to - from <= 4,
        forall|i: int| 0 <= i < s@.len() ==> is_digit(#[trigger] s@[i], 10),
    ensures
        r == digits_value(s@.subrange(from as int, to as int), 10),
        r <= 9999,
{
    let part = vstd::slice::slice_subrange(s, from, to);
    let ghost p = s@.subrange(from as int, to as int);
    proof {
        assert forall|i: int| 0 <= i < p.len() implies is_digit(#[trigger] p[i], 10) by {
            assert(p[i] == s@[from + i]);
        }
        lemma_short_number(p);
        assert(is_digit(p[0], 10));
        assert(unsigned_part(p) == p);
    }
    match parse_unsigned(part, 10, 9999) {
        Some(v) => v as u32,
        None => 0,
    }
}

proof fn lemma_short_number(s: Seq<char>)
    requires
        s.len() <= 4,
        forall|i: int| 0 <= i < s.len() ==> is_digit(#[trigger] s[i], 10),
    ensures
        0 <= digits_value(s, 10) <= 9999,
{
    reveal_with_fuel(digits_value, 5);
    let a = s.drop_last();
    let b = a.drop_last();
    let c = b.drop_last();
    if s.len() > 0 {
        assert(is_digit(s[s.len() - 1], 10));
    }
    if s.len() > 1 {
        assert(is_digit(s[s.len() - 2], 10));
        assert(a.last() == s[s.len() - 2]);
    }
    if s.len() > 2 {
        assert(is_digit(s[s.len() - 3], 10));
        assert(b.last() == s[s.len() - 3]);
    }
    if s.len() > 3 {
        assert(is_digit(s[s.len() - 4], 10));
        assert(c.last() == s[s.len() - 4]);
    }
}

/// The instant that an MLSD time means, to the minute.
fn parse_mlsd_time(value: &[char]) -> (r: Option<i64>)
    ensures
        r == mlsd_time(value@),
{
    let mut digits: Vec<char> = Vec::new();
    let ghost keep = |c: char| is_digit(c, 10);
    proof {
        reveal(Seq::filter);
        assert(value@.take(0) =~= Seq::empty());
    }
    for i in 0..value.len()
        invariant
            forall|c: char| #[trigger] keep(c) == is_digit(c, 10),
            digits@ == value@.take(i as int).filter(keep),
            forall|j: int| 0 <= j < digits@.len() ==> is_digit(#[trigger] digits@[j], 10),
    {
        let c = value[i];
        proof {
            reveal(Seq::filter);
            let now = value@.take(i + 1);
            assert(now.drop_last() =~= value@.take(i as int));
            assert(now.last() == c);
            assert(now.filter(keep) == if keep(c) {
                value@.take(i as int).filter(keep).push(c)
            } else {
                value@.take(i as int).filter(keep)
            });
        }
        if '0' <= c && c <= '9' {
            digits.push(c);
        }
    }
    assert(value@.take(value@.len() as int) =~= value@);
    if digits.len() < 14 {
        return None;
    }
    let d = digits.as_slice();
    let year = digits_at(d, 0, 4);
    let month = digits_at(d, 4, 6);
    let day = digits_at(d, 6, 8);
    let hour = digits_at(d, 8, 10);
    let minute = digits_at(d, 10, 12);
    if !(1 <= month && month <= 12) || !(1 <= day && day <= 31) || hour > 23 || minute > 59 {
        return None;
    }
    checked_ts(year as i64, month, day, hour, minute)
}

/// Appends the letter where the bit is set in `mode`, else a dash.
fn push_letter(out: &mut String, mode: u32, bit: u32, letter: char)
    requires
        bit > 0,
    ensures
        final(out)@ == old(out)@.push(perm_letter(mode as int, bit as int, letter)),
{
    if mode / bit % 2 == 1 {
        out.push(letter);
    } else {
        out.push('-');
    }
}

/// The nine permission letters of a file mode.
pub fn mode_string(mode: u32) -> (r: String)
    ensures
        r@ == perm_text(mode as int),
{
    let mut s = String::new();
    push_letter(&mut s, mode, 256, 'r');
    push_letter(&mut s, mode, 128, 'w');
    push_letter(&mut s, mode, 64, 'x');
    push_letter(&mut s, mode, 32, 'r');
    push_letter(&mut s, mode, 16, 'w');
    push_letter(&mut s, mode, 8, 'x');
    push_letter(&mut s, mode, 4, 'r');
    push_letter(&mut s, mode, 2, 'w');
    push_letter(&mut s, mode, 1, 'x');
    assert(s@ =~= perm_text(mode as int));
    s
}

/// The permission letters of a mode in octal.
fn octal_mode_to_perm(mode: &[char]) -> (r: String)
    ensures
        r@ == octal_perms(mode@),
{
    let mut i: usize = 0;
    let n: usize = mode.len();
    assert(mode@.skip(0) =~= mode@);
    while i < n && mode[i] == '0'
        invariant
            i <= n == mode@.len(),
            without_zeros(mode@) == without_zeros(mode@.skip(i as int)),
        decreases n - i,
    {
        assert(mode@.skip(i as int).drop_first() =~= mode@.skip(i + 1));
        i += 1;
    }
    let rest = vstd::slice::slice_subrange(mode, i, n);
    assert(rest@ =~= mode@.skip(i as int));
    match parse_unsigned(rest, 8, u32::MAX as u64) {
        Some(v) => mode_string(v as u32),
        None => mode_string(0),
    }
}

/// Reads one MLSD line.
pub fn parse_mlsd(line: &str) -> (r: Option<FileEntry>)
    ensures
        r.deep_view() == mlsd_entry(line@),
{
    let chars = chars_of(line);
    mlsd_line(chars.as_slice())
}

pub(crate) proof fn lemma_lower_names()
    ensures
        lower_all("type"@) == "type"@,
        lower_all("size"@) == "size"@,
        lower_all("modify"@) == "modify"@,
        lower_all("unix.mode"@) == "unix.mode"@,
        lower_all("dir"@) == "dir"@,
        lower_all("cdir"@) == "cdir"@,
        lower_all("pdir"@) == "pdir"@,
{
    reveal_strlit("type");
    reveal_strlit("size");
    reveal_strlit("modify");
    reveal_strlit("unix.mode");
    reveal_strlit("dir");
    reveal_strlit("cdir");
    reveal_strlit("pdir");
    assert(lower_all("type"@) =~= "type"@);
    assert(lower_all("size"@) =~= "size"@);
    assert(lower_all("modify"@) =~= "modify"@);
    assert(lower_all("unix.mode"@) =~= "unix.mode"@);
    assert(lower_all("dir"@) =~= "dir"@);
    assert(lower_all("cdir"@) =~= "cdir"@);
    assert(lower_all("pdir"@) =~= "pdir"@);
}

fn mlsd_line(line: &[char]) -> (r: Option<FileEntry>)
    ensures
        r.deep_view() == mlsd_entry(line@),
{
    let (fs, rest) = split_facts(line);
    let name = trim(rest);
    if fs.len() == 0 || name.len() == 0 {
        return None;
    }
    proof {
        lemma_lower_names();
    }
    let is_dir = match last_value(&fs, "type") {
        Some(v) => lowers_to(v, "dir") || lowers_to(v, "cdir") || lowers_to(v, "pdir"),
        None => false,
    };
    let size: u64 = match last_value(&fs, "size") {
        Some(v) => match parse_unsigned(v, 10, u64::MAX) {
            Some(n) => n,
            None => 0,
        },
        None => 0,
    };
    let modified = match last_value(&fs, "modify") {
        Some(v) => parse_mlsd_time(v),
        None => None,
    };
    let perms = match last_value(&fs, "unix.mode") {
        Some(v) => Some(octal_mode_to_perm(v)),
        None => None,
    };
    Some(FileEntry { name: string_of(name), is_dir, size, modified, perms })
}

/// Whether a trimmed line is the line that counts the blocks of a listing.
pub open spec fn is_total(line: Seq<char>) -> bool {
    begins_with(lower_all(line), "total "@) || begins_with(lower_all(line), "总计"@)
}

/// What a line of a listing says at `now`. The formats are tried in the order MLSD, Unix, Windows.
pub open spec fn listing_entry(line: Seq<char>, now: int) -> Option<EntryView> {
    let t = trimmed(line);
    if t.len() == 0 || is_total(t) {
        None
    } else if mlsd_entry(t).is_some() {
        mlsd_entry(t)
    } else if unix_entry(t, now).is_some() {
        unix_entry(t, now)
    } else {
        windows_entry(t)
    }
}

/// Whether a trimmed line is the line that counts the blocks of a listing.
fn looks_like_total(line: &[char]) -> (r: bool)
    ensures
        r == is_total(line@),
{
    let mut lower: Vec<char> = Vec::new();
    for i in 0..line.len()
        invariant
            lower@ == lower_all(line@).take(i as int),
    {
        lower.push(ascii_lower(line[i]));
        assert(lower@ =~= lower_all(line@).take(i + 1));
    }
    assert(lower@ =~= lower_all(line@));
    starts_with(lower.as_slice(), "total ") || starts_with(lower.as_slice(), "总计")
}

/// Reads one line of a listing in any of the formats; a time without a year is read as of `now`.
pub fn parse_listing_line_at(line: &str, now: i64) -> (r: Option<FileEntry>)
    ensures
        r.deep_view() == listing_entry(line@, now as int),
{
    let chars = chars_of(line);
    let trimmed = trim(chars.as_slice());
    if trimmed.len() == 0 || looks_like_total(trimmed) {
        return None;
    }
    let mlsd = mlsd_line(trimmed);
    if mlsd.is_some() {
        return mlsd;
    }
    let unix = unix_line(trimmed, now);
    if unix.is_some() {
        return unix;
    }
    windows_line(trimmed)
}

/// `SystemTime::elapsed` of the Unix epoch, in whole seconds: what the clock of the machine shows.
/// Nothing is claimed of the reading.
#[verifier::external_body]
fn clock_reading() -> (r: Option<u64>) {
    match std::time::UNIX_EPOCH.elapsed() {
        Ok(d) => Some(d.as_secs()),
        Err(_) => None,
    }
}

/// The instant of a clock reading: its seconds, or the epoch where there is no reading that an
/// `i64` holds.
pub fn instant_of(reading: Option<u64>) -> (r: i64)
    ensures
        r == match reading {
            Some(s) => if s <= i64::MAX {
                s as i64
            } else {
                0
            },
            None => 0,
        },
{
    match reading {
        Some(s) => if s <= i64::MAX as u64 {
            s as i64
        } else {
            0
        },
        None => 0,
    }
}

/// Whether a reading of the machine's clock can give the instant `now`: its seconds, or the epoch
/// where there is no reading that an `i64` holds.
pub closed spec fn clock_can_show(now: i64) -> bool {
    exists|reading: Option<u64>|
        {
            &&& #[trigger] call_ensures(clock_reading, (), reading)
            &&& now == match reading {
                Some(s) => if s <= i64::MAX {
                    s as i64
                } else {
                    0
                },
                None => 0,
            }
        }
}

/// The current instant, in seconds since the epoch.
pub fn unix_now() -> (r: i64)
    ensures
        clock_can_show(r),
        r >= 0,
{
    instant_of(clock_reading())
}

/// Reads one line of a listing; a time without a year is read as of the current instant.
pub fn parse_listing_line(line: &str) -> (r: Option<FileEntry>)
    ensures
        exists|now: i64|
            {
                &&& clock_can_show(now)
                &&& now >= 0
                &&& r.deep_view() == #[trigger] listing_entry(line@, now as int)
            },
{
    let now = unix_now();
    let r = parse_listing_line_at(line, now);
    assert(r.deep_view() == listing_entry(line@, now as int));
    r
}

/// Whether a line stands for the directory itself or the one above it.
pub open spec fn is_dot_name(name: Seq<char>) -> bool {
    name == "."@ || name == ".."@
}

/// What a line adds to a listing.
pub open spec fn listed(line: Seq<char>, now: int) -> Option<EntryView> {
    match listing_entry(line, now) {
        Some(e) => if is_dot_name(e.name) {
            None
        } else {
            Some(e)
        },
        None => None,
    }
}

/// The entries that the lines of a listing say, in order.
pub open spec fn listing_entries(lines: Seq<Seq<char>>, now: int) -> Seq<EntryView> {
    lines.filter_map(|line: Seq<char>| listed(line, now))
}

/// Reads the lines of a listing; lines that say nothing and the entries `.` and `..` are left out.
pub fn parse_lines_at(lines: &[String], now: i64) -> (out: Vec<FileEntry>)
    ensures
        out.deep_view() == listing_entries(lines.deep_view(), now as int),
{
    let mut out: Vec<FileEntry> = Vec::new();
    let ghost all = lines.deep_view();
    let ghost f = |line: Seq<char>| listed(line, now as int);
    assert(all.take(0) =~= Seq::empty());
    assert(out.deep_view() =~= all.take(0).filter_map(f)) by {
        reveal(Seq::filter_map);
    }
    for i in 0..lines.len()
        invariant
            all == lines.deep_view(),
            f == (|line: Seq<char>| listed(line, now as int)),
            out.deep_view() == all.take(i as int).filter_map(f),
    {
        let entry = parse_listing_line_at(lines[i].as_str(), now);
        let ghost before = out.deep_view();
        proof {
            all.lemma_filter_map_take_succ(f, i as int);
            assert(all[i as int] == lines@[i as int]@);
            assert(f(all[i as int]) == listed(all[i as int], now as int));
        }
        match entry {
            Some(e) => {
                let name = chars_of(e.name.as_str());
                if !same_str(name.as_slice(), ".") && !same_str(name.as_slice(), "..") {
                    out.push(e);
                    assert(out.deep_view() =~= before.push(e.deep_view()));
                }
            },
            None => {},
        }
        assert(out.deep_view() =~= all.take(i + 1).filter_map(f));
    }
    assert(all.take(all.len() as int) =~= all);
    out
}

/// Whether a line should say something but does not: it is not blank, it does not count blocks,
/// and it is in none of the formats.
pub open spec fn is_unread(line: Seq<char>, now: int) -> bool {
    &&& trimmed(line).len() > 0
    &&& !is_total(trimmed(line))
    &&& listing_entry(line, now).is_none()
}

/// The lines of a listing that could not be read, as they came.
pub open spec fn unread_lines(lines: Seq<Seq<char>>, now: int) -> Seq<Seq<char>> {
    lines.filter(|line: Seq<char>| is_unread(line, now))
}

/// The lines of a listing that could not be read, as they came.
pub fn unread_lines_at(lines: &[String], now: i64) -> (out: Vec<String>)
    ensures
        out.deep_view() == unread_lines(lines.deep_view(), now as int),
{
    let mut out: Vec<String> = Vec::new();
    let ghost all = lines.deep_view();
    let ghost keep = |line: Seq<char>| is_unread(line, now as int);
    assert(all.take(0) =~= Seq::empty());
    assert(out.deep_view() =~= all.take(0).filter(keep)) by {
        reveal(Seq::filter);
    }
    for i in 0..lines.len()
        invariant
            all == lines.deep_view(),
            keep == (|line: Seq<char>| is_unread(line, now as int)),
            out.deep_view() == all.take(i as int).filter(keep),
    {
        let ghost before = out.deep_view();
        let line = lines[i].as_str();
        proof {
            reveal(Seq::filter);
            assert(all.take(i + 1).drop_last() =~= all.take(i as int));
            assert(all.take(i + 1).last() == line@);
            assert(keep(line@) == is_unread(line@, now as int));
        }
        let chars = chars_of(line);
        let trimmed = trim(chars.as_slice());
        if trimmed.len() > 0 && !looks_like_total(trimmed) && parse_listing_line_at(
            line,
            now,
        ).is_none() {
            out.push(lines[i].clone());
            assert(out.deep_view() =~= before.push(line@));
        }
    }
    assert(all.take(all.len() as int) =~= all);
    out
}

/// Reads the lines of a listing as of the current instant.
pub fn parse_lines(lines: &[String]) -> (out: Vec<FileEntry>)
    ensures
        exists|now: i64|
            {
                &&& clock_can_show(now)
                &&& now >= 0
                &&& out.deep_view() == #[trigger] listing_entries(lines.deep_view(), now as int)
            },
{
    let now = unix_now();
    let out = parse_lines_at(lines, now);
    assert(out.deep_view() == listing_entries(lines.deep_view(), now as int));
    out
}

/// White space around a line, its line end in the first place, does not change what it says.
pub proof fn line_end_is_ignored(line: Seq<char>, c: char, now: int)
    requires
        is_white(c),
    ensures
        listing_entry(line.push(c), now) == listing_entry(line, now),
        listing_entry(seq![c] + line, now) == listing_entry(line, now),
{
    trimmed_ignores_ends(line, c);
}

/// An entry that a line says has a name, and perms only of nine or ten characters.
pub proof fn entries_are_named(line: Seq<char>, now: int)
    requires
        listing_entry(line, now).is_some(),
    ensures
        listing_entry(line, now).unwrap().name.len() > 0,
        listing_entry(line, now).unwrap().perms matches Some(p) ==> p.len() == 9 || p.len() == 10,
{
}

/// An MLSD line is read as such, whatever else it looks like, and its name has no white space at
/// its ends.
pub proof fn mlsd_comes_first(line: Seq<char>, now: int)
    requires
        !is_total(trimmed(line)),
        mlsd_entry(trimmed(line)).is_some(),
    ensures
        listing_entry(line, now) == mlsd_entry(trimmed(line)),
        !is_white(mlsd_entry(trimmed(line)).unwrap().name[0]),
        !is_white(mlsd_entry(trimmed(line)).unwrap().name.last()),
{
    let t = trimmed(line);
    trimmed_has_no_white_ends(facts(t).1);
    if t.len() == 0 {
        lemma_cut(t, ';');
        assert(!t.contains(';'));
    }
}

/// A date without a year is read as one of the last 366 days, or at most a day ahead.
pub proof fn recent_dates_are_recent(month: int, day: int, hour: int, minute: int, now: int)
    requires
        1 <= month <= 12,
        1 <= day <= 31,
        0 <= hour <= 23,
        0 <= minute <= 59,
        now >= 0,
    ensures
        now - 366 * 86_400 < recent_seconds(month, day, hour, minute, now) <= now + 86_400,
{
    let y = year_at(now);
    year_at_holds_the_instant(now);
    day_does_not_pass_its_year(y, month, day);
    day_does_not_pass_its_year(y - 1, month, day);
    dates_come_back_within_366_days(y - 1, month, day, hour, minute);
    year_starts_follow(y);
}

/// What a line says depends on the clock only where it is a Unix line with a time of day: an MLSD
/// line, a Windows line and a Unix line with a year say the same at every instant.
pub proof fn only_times_of_day_need_the_clock(line: Seq<char>, a: int, b: int)
    requires
        ({
            let t = trimmed(line);
            ||| mlsd_entry(t).is_some()
            ||| windows_entry(t).is_some()
            ||| words(t).len() < 9
            ||| cut(words(t)[7], ':').is_none()
        }),
    ensures
        listing_entry(line, a) == listing_entry(line, b),
{
    let f = words(trimmed(line));
    if windows_entry(trimmed(line)).is_some() {
        lemma_date_is_no_perm_column(f[0]);
    }
}

pub(crate) proof fn lemma_date_is_no_perm_column(s: Seq<char>)
    requires
        windows_date(s).is_some(),
    ensures
        !is_perm_column(s),
{
    let mm = cut_date(s).unwrap().0;
    let d = unsigned_part(mm);
    assert(is_number(d, 10));
    assert(is_digit(d[0], 10));
    assert(mm[0] == s[0]);
}

/// No listing shows an entry without a name, nor the entries `.` and `..`.
pub proof fn listings_hide_dot_names(lines: Seq<Seq<char>>, now: int, e: EntryView)
    requires
        listing_entries(lines, now).contains(e),
    ensures
        e.name.len() > 0,
        e.name != "."@ && e.name != ".."@,
        exists|i: int|
            0 <= i < lines.len() && listing_entry(#[trigger] lines[i], now) == Some(e),
{
    let f = |line: Seq<char>| listed(line, now);
    lines.lemma_filter_map_contains(f, e);
    let line = choose|line: Seq<char>| lines.contains(line) && f(line) == Some(e);
    assert(f(line) == listed(line, now));
    let i = choose|i: int| 0 <= i < lines.len() && lines[i] == line;
    assert(listing_entry(lines[i], now) == Some(e));
}

proof fn lemma_mapped(
    lines: Seq<Seq<char>>,
    f: spec_fn(Seq<char>) -> Option<EntryView>,
    i: int,
    e: EntryView,
)
    requires
        0 <= i < lines.len(),
        f(lines[i]) == Some(e),
    ensures
        lines.filter_map(f).contains(e),
    decreases lines.len(),
{
    reveal(Seq::filter_map);
    let rest = lines.drop_last();
    let out = lines.filter_map(f);
    if i == lines.len() - 1 {
        assert(out[rest.filter_map(f).len() as int] == e);
    } else {
        lemma_mapped(rest, f, i, e);
        let found = rest.filter_map(f);
        let k = choose|k: int| 0 <= k < found.len() && found[k] == e;
        assert(out[k] == e);
    }
}

/// No line of a listing is lost: one that is not blank and does not count blocks either adds its
/// entry, or stands for `.` or `..`, or is told as unread.
pub proof fn no_line_is_lost(lines: Seq<Seq<char>>, now: int, i: int)
    requires
        0 <= i < lines.len(),
        trimmed(lines[i]).len() > 0,
        !is_total(trimmed(lines[i])),
    ensures
        match listing_entry(lines[i], now) {
            Some(e) => e.name == "."@ || e.name == ".."@ || listing_entries(lines, now).contains(e),
            None => unread_lines(lines, now).contains(lines[i]),
        },
{
    let f = |line: Seq<char>| listed(line, now);
    let keep = |line: Seq<char>| is_unread(line, now);
    match listing_entry(lines[i], now) {
        Some(e) => if !is_dot_name(e.name) {
            assert(f(lines[i]) == Some(e));
            lemma_mapped(lines, f, i, e);
        },
        None => {
            broadcast use vstd::seq_lib::group_filter_ensures;

            assert(keep(lines[i]));
        },
    }
}

/// A Unix line with a year says what it was made of: its permissions, its size, its date, and its
/// name, blanks in it and all. The links, the owner and the group do not count.
pub proof fn unix_lines_read_back(
    perms: Seq<char>,
    links: Seq<char>,
    owner: Seq<char>,
    group: Seq<char>,
    size: u64,
    month: Seq<char>,
    day: int,
    year: int,
    name: Seq<Seq<char>>,
    now: int,
)
    requires
        is_perm_column(perms),
        is_word(links),
        is_word(owner),
        is_word(group),
        is_word(month),
        month_number(month).is_some(),
        1 <= day <= 31,
        1970 <= year <= 2200,
        name.len() > 0,
        forall|i: int| 0 <= i < name.len() ==> is_word(#[trigger] name[i]),
        before(spaced(name), " -> "@) == spaced(name),
    ensures
        ({
            let fields = seq![
                perms,
                links,
                owner,
                group,
                decimal(size as int),
                month,
                decimal(day),
                decimal(year),
            ] + name;
            unix_entry(spaced(fields), now) == Some(
                EntryView {
                    name: spaced(name),
                    is_dir: perms[0] == 'd' || perms[0] == 'l',
                    size,
                    modified: Some(
                        civil_seconds(year, month_number(month).unwrap(), day, 0, 0) as i64,
                    ),
                    perms: Some(perms),
                },
            )
        }),
{
    let head = seq![
        perms,
        links,
        owner,
        group,
        decimal(size as int),
        month,
        decimal(day),
        decimal(year),
    ];
    let fields = head + name;
    let m = month_number(month).unwrap();
    assert forall|i: int| 0 <= i < perms.len() implies !is_white(#[trigger] perms[i]) by {
        if i > 0 {
            assert(is_perm(perms[i]));
        }
    }
    decimal_is_made_of_digits(size as int, ':');
    decimal_is_made_of_digits(day, ':');
    decimal_is_made_of_digits(year, ':');
    decimal_is_made_of_digits(year, '-');
    assert forall|i: int| 0 <= i < fields.len() implies is_word(#[trigger] fields[i]) by {
        if i >= 8 {
            assert(fields[i] == name[i - 8]);
        }
    }
    words_undo_spaced(fields);
    assert(fields.skip(8) =~= name);
    decimal_reads_back(size as int, u64::MAX as int);
    decimal_reads_back(day, u32::MAX as int);
    decimal_reads_back(year, i64::MAX as int);
    lemma_cut(decimal(year), ':');
    assert(decimal(year)[0] != '-') by {
        assert(decimal(year).contains(decimal(year)[0]));
    }
    day_does_not_pass_its_year(year, m, day);
    assert(name[0].len() > 0);
    lemma_spaced_len(name);
}

proof fn lemma_spaced_len(parts: Seq<Seq<char>>)
    requires
        parts.len() > 0,
        parts[0].len() > 0,
    ensures
        spaced(parts).len() > 0,
    decreases parts.len(),
{
    if parts.len() > 1 {
        lemma_spaced_len(parts.drop_last());
    }
}

/// The facts as they stand in an MLSD line, each behind its blanks.
pub open spec fn fact_text(blanks: Seq<Seq<char>>, fs: Seq<(Seq<char>, Seq<char>)>) -> Seq<char>
    decreases fs.len(),
{
    if fs.len() == 0 {
        Seq::empty()
    } else {
        blanks[0] + (fs[0].0 + seq!['='] + fs[0].1) + seq![';'] + fact_text(
            blanks.drop_first(),
            fs.drop_first(),
        )
    }
}

/// Whether a fact can be written down: neither part holds a semicolon, its name holds no equals
/// sign, and there is no white space around it.
pub open spec fn is_fact(fact: (Seq<char>, Seq<char>)) -> bool {
    &&& !fact.0.contains('=')
    &&& !fact.0.contains(';')
    &&& !fact.1.contains(';')
    &&& trimmed(fact.0 + seq!['='] + fact.1) == fact.0 + seq!['='] + fact.1
}

/// Whether `s` is made of white space.
pub open spec fn is_blank(s: Seq<char>) -> bool {
    forall|i: int| 0 <= i < s.len() ==> is_white(#[trigger] s[i])
}

/// Whether the facts can be written down, each behind its blanks.
pub open spec fn are_facts(blanks: Seq<Seq<char>>, fs: Seq<(Seq<char>, Seq<char>)>) -> bool {
    &&& blanks.len() == fs.len()
    &&& forall|i: int| 0 <= i < fs.len() ==> is_fact(#[trigger] fs[i])
    &&& forall|i: int| 0 <= i < blanks.len() ==> is_blank(#[trigger] blanks[i])
}

/// Whether no fact of an MLSD line can begin in `name`: where it holds a semicolon, no equals sign
/// stands before that.
pub open spec fn ends_facts(name: Seq<char>) -> bool {
    cut(name, ';') matches Some(p) ==> !trimmed(p.0).contains('=')
}

proof fn lemma_blanks_are_trimmed(blank: Seq<char>, s: Seq<char>)
    requires
        is_blank(blank),
    ensures
        trimmed(blank + s) == trimmed(s),
    decreases blank.len(),
{
    if blank.len() == 0 {
        assert(blank + s =~= s);
    } else {
        let rest = blank.drop_first();
        assert forall|i: int| 0 <= i < rest.len() implies is_white(#[trigger] rest[i]) by {
            assert(rest[i] == blank[i + 1]);
        }
        lemma_blanks_are_trimmed(rest, s);
        assert(is_white(blank[0]));
        trimmed_ignores_ends(rest + s, blank[0]);
        assert(blank + s =~= seq![blank[0]] + (rest + s));
    }
}

/// The facts of an MLSD line are found again without the blanks before them, and so is the name
/// behind them, blanks in it and all.
pub proof fn facts_read_back(
    blanks: Seq<Seq<char>>,
    fs: Seq<(Seq<char>, Seq<char>)>,
    name: Seq<char>,
)
    requires
        are_facts(blanks, fs),
        ends_facts(name),
    ensures
        facts(fact_text(blanks, fs) + name) == (fs, name),
    decreases fs.len(),
{
    let line = fact_text(blanks, fs) + name;
    if fs.len() == 0 {
        assert(line =~= name);
        match cut(name, ';') {
            Some(p) => {
                lemma_cut(trimmed(p.0), '=');
            },
            None => {},
        }
        assert(facts(name).0 =~= fs);
    } else {
        let rest = fs.drop_first();
        let behind = blanks.drop_first();
        let fact = fs[0];
        assert(is_fact(fs[0]));
        assert(is_blank(blanks[0]));
        let body = fact.0 + seq!['='] + fact.1;
        let head = blanks[0] + body;
        let tail = fact_text(behind, rest) + name;
        assert(line =~= head + seq![';'] + tail);
        assert(!head.contains(';')) by {
            if head.contains(';') {
                let i = choose|i: int| 0 <= i < head.len() && head[i] == ';';
                let j = i - blanks[0].len();
                if j < 0 {
                    assert(is_white(blanks[0][i]));
                } else if j < fact.0.len() {
                    assert(fact.0[j] == ';');
                } else if j > fact.0.len() {
                    assert(fact.1[j - fact.0.len() - 1] == ';');
                }
            }
        }
        cut_undoes_join(head, ';', tail);
        lemma_blanks_are_trimmed(blanks[0], body);
        cut_undoes_join(fact.0, '=', fact.1);
        assert forall|i: int| 0 <= i < rest.len() implies is_fact(#[trigger] rest[i]) by {
            assert(rest[i] == fs[i + 1]);
        }
        assert forall|i: int| 0 <= i < behind.len() implies is_blank(#[trigger] behind[i]) by {
            assert(behind[i] == blanks[i + 1]);
        }
        facts_read_back(behind, rest, name);
        assert(seq![fact] + rest =~= fs);
    }
}

/// Whether an MLSD fact of this name, in lower case, is made use of.
pub open spec fn is_known_fact(name: Seq<char>) -> bool {
    name == "type"@ || name == "size"@ || name == "modify"@ || name == "unix.mode"@
}

/// Whether the facts say that the one named `name`, in any case of the letters, is `value`.
pub open spec fn says_fact(
    fs: Seq<(Seq<char>, Seq<char>)>,
    name: Seq<char>,
    value: Seq<char>,
) -> bool {
    exists|i: int| 0 <= i < fs.len() && lower_all(#[trigger] fs[i].0) == name && fs[i].1 == value
}

/// Whether no two facts have the same name, whatever the case of its letters.
pub open spec fn has_distinct_names(fs: Seq<(Seq<char>, Seq<char>)>) -> bool {
    forall|i: int, j: int|
        0 <= i < j < fs.len() ==> lower_all(#[trigger] fs[i].0) != lower_all(#[trigger] fs[j].0)
}

pub(crate) proof fn lemma_last_fact(
    fs: Seq<(Seq<char>, Seq<char>)>,
    n: int,
    name: Seq<char>,
    value: Seq<char>,
)
    requires
        has_distinct_names(fs),
        0 <= n <= fs.len(),
    ensures
        last_fact(fs.take(n), name) == Some(value) <==> exists|i: int|
            0 <= i < n && lower_all(#[trigger] fs[i].0) == name && fs[i].1 == value,
    decreases n,
{
    if n > 0 {
        let head = fs.take(n);
        assert(head.drop_last() =~= fs.take(n - 1));
        assert(head.last() == fs[n - 1]);
        lemma_last_fact(fs, n - 1, name, value);
    }
}

/// What an MLSD line says depends on neither the order of its facts, nor the case of their names,
/// nor blanks before them, nor facts that are not made use of: two lines say the same where they
/// have the same name and give the known facts the same values.
pub proof fn mlsd_facts_stand_in_any_order(
    blanks_a: Seq<Seq<char>>,
    a: Seq<(Seq<char>, Seq<char>)>,
    blanks_b: Seq<Seq<char>>,
    b: Seq<(Seq<char>, Seq<char>)>,
    name: Seq<char>,
)
    requires
        are_facts(blanks_a, a),
        are_facts(blanks_b, b),
        has_distinct_names(a),
        has_distinct_names(b),
        ends_facts(name),
        a.len() > 0,
        b.len() > 0,
        forall|known: Seq<char>, value: Seq<char>|
            is_known_fact(known) ==> #[trigger] says_fact(a, known, value) == says_fact(
                b,
                known,
                value,
            ),
    ensures
        mlsd_entry(fact_text(blanks_a, a) + name) == mlsd_entry(fact_text(blanks_b, b) + name),
{
    facts_read_back(blanks_a, a, name);
    facts_read_back(blanks_b, b, name);
    assert forall|known: Seq<char>| is_known_fact(known) implies #[trigger] last_fact(a, known)
        == last_fact(b, known) by {
        assert(a.take(a.len() as int) =~= a);
        assert(b.take(b.len() as int) =~= b);
        match last_fact(a, known) {
            Some(value) => {
                lemma_last_fact(a, a.len() as int, known, value);
                lemma_last_fact(b, b.len() as int, known, value);
                assert(says_fact(a, known, value) == says_fact(b, known, value));
            },
            None => match last_fact(b, known) {
                Some(value) => {
                    lemma_last_fact(a, a.len() as int, known, value);
                    lemma_last_fact(b, b.len() as int, known, value);
                    assert(says_fact(a, known, value) == says_fact(b, known, value));
                },
                None => {},
            },
        }
    }
    assert(is_known_fact("type"@));
    assert(is_known_fact("size"@));
    assert(is_known_fact("modify"@));
    assert(is_known_fact("unix.mode"@));
}

/// Two Windows lines that differ in nothing but that the time of one is marked as before noon and
/// that of the other as after noon name instants that are twelve hours apart, and say the same of
/// everything else. Left out are only times whose twelve hours later no `i64` holds.
pub proof fn afternoons_are_twelve_hours_later(
    am_line: Seq<char>,
    pm_line: Seq<char>,
    time: Seq<char>,
    am: Seq<char>,
    pm: Seq<char>,
)
    requires
        lower_all(am) == "am"@,
        lower_all(pm) == "pm"@,
        words(am_line).len() > 1,
        words(am_line)[1] == time + am,
        words(pm_line) == words(am_line).update(1, time + pm),
        windows_entry(am_line) matches Some(e) && e.modified.unwrap() + 43_200 <= i64::MAX,
    ensures
        windows_entry(am_line).unwrap().modified matches Some(at) && windows_entry(pm_line) == Some(
            EntryView {
                modified: Some((at + 43_200) as i64),
                ..windows_entry(am_line).unwrap()
            },
        ),
{
    let f = words(am_line);
    let g = words(pm_line);
    reveal_strlit("am");
    reveal_strlit("pm");
    assert(lower_all(am).len() == 2 && lower_all(pm).len() == 2);
    assert("am"@[0] != "pm"@[0]);
    let (s, t) = (time + am, time + pm);
    assert(s.skip(s.len() - 2) =~= am);
    assert(t.skip(t.len() - 2) =~= pm);
    assert(s.take(s.len() - 2) =~= time);
    assert(t.take(t.len() - 2) =~= time);
    assert(g.skip(3) =~= f.skip(3));
}

/// A Windows line says what it was made of: its date, its time by the twelve-hour clock, its size
/// or the mark of a directory, and its name, blanks in it and all.
pub proof fn windows_lines_read_back(
    month: int,
    day: int,
    year: int,
    hour: int,
    minute: int,
    pm: bool,
    size: Option<u64>,
    name: Seq<Seq<char>>,
)
    requires
        1 <= month <= 12,
        1 <= day <= 31,
        100 <= year <= 9999,
        1 <= hour <= 12,
        0 <= minute <= 59,
        name.len() > 0,
        forall|i: int| 0 <= i < name.len() ==> is_word(#[trigger] name[i]),
    ensures
        ({
            let date = decimal(month) + seq!['-'] + decimal(day) + seq!['-'] + decimal(year);
            let time = decimal(hour) + seq![':'] + decimal(minute) + if pm {
                "PM"@
            } else {
                "AM"@
            };
            let kind = match size {
                Some(n) => decimal(n as int),
                None => "<DIR>"@,
            };
            windows_entry(spaced(seq![date, time, kind] + name)) == Some(
                EntryView {
                    name: spaced(name),
                    is_dir: size.is_none(),
                    size: match size {
                        Some(n) => n,
                        None => 0,
                    },
                    modified: Some(
                        civil_seconds(
                            year,
                            month,
                            day,
                            hour % 12 + if pm {
                                12int
                            } else {
                                0
                            },
                            minute,
                        ) as i64,
                    ),
                    perms: None,
                },
            )
        }),
{
    let date = decimal(month) + seq!['-'] + decimal(day) + seq!['-'] + decimal(year);
    let mark = if pm {
        "PM"@
    } else {
        "AM"@
    };
    let time = decimal(hour) + seq![':'] + decimal(minute) + mark;
    let kind = match size {
        Some(n) => decimal(n as int),
        None => "<DIR>"@,
    };
    let fields = seq![date, time, kind] + name;
    lemma_windows_date_reads_back(month, day, year);
    lemma_ampm_reads_back(hour, minute, pm);
    reveal_strlit("<DIR>");
    match size {
        Some(n) => {
            decimal_is_made_of_digits(n as int, '<');
            decimal_reads_back(n as int, u64::MAX as int);
            assert(lower_all(kind) != lower_all("<DIR>"@)) by {
                assert(lower_all("<DIR>"@)[0] == '<');
                assert(kind.contains(kind[0]));
                assert(is_word(kind));
                decimal_is_made_of_digits(n as int, kind[0]);
                assert(lower_all(kind)[0] == kind[0]);
            }
        },
        None => {},
    }
    assert forall|i: int| 0 <= i < fields.len() implies is_word(#[trigger] fields[i]) by {
        if i >= 3 {
            assert(fields[i] == name[i - 3]);
        }
    }
    words_undo_spaced(fields);
    assert(fields.skip(3) =~= name);
    day_does_not_pass_its_year(year, month, day);
    assert(name[0].len() > 0);
    lemma_spaced_len(name);
}

pub(crate) proof fn lemma_number_len(a: Seq<char>, c: char, b: Seq<char>)
    requires
        is_date_mark(c),
        forall|i: int| 0 <= i < a.len() ==> !is_date_mark(#[trigger] a[i]),
    ensures
        cut_date(a + seq![c] + b) == Some((a, b)),
{
    let s = a + seq![c] + b;
    lemma_number_len_is(s, a.len() as int);
    assert(s.take(a.len() as int) =~= a);
    assert(s.skip(a.len() as int + 1) =~= b);
}

pub(crate) proof fn lemma_number_len_is(s: Seq<char>, n: int)
    requires
        0 <= n <= s.len(),
        forall|i: int| 0 <= i < n ==> !is_date_mark(#[trigger] s[i]),
        n < s.len() ==> is_date_mark(s[n]),
    ensures
        number_len(s) == n,
    decreases n,
{
    if n > 0 {
        let t = s.drop_first();
        assert(!is_date_mark(s[0]));
        assert forall|i: int| 0 <= i < n - 1 implies !is_date_mark(#[trigger] t[i]) by {
            assert(t[i] == s[i + 1]);
        }
        lemma_number_len_is(t, n - 1);
    }
}

pub(crate) proof fn lemma_digits_are_plain(n: int)
    requires
        0 <= n,
    ensures
        is_word(decimal(n)),
        forall|i: int| 0 <= i < decimal(n).len() ==> '0' <= #[trigger] decimal(n)[i] <= '9',
{
    decimal_is_made_of_digits(n, '0');
    assert forall|i: int| 0 <= i < decimal(n).len() implies '0' <= #[trigger] decimal(n)[i]
        <= '9' by {
        assert(decimal(n).contains(decimal(n)[i]));
        decimal_is_made_of_digits(n, decimal(n)[i]);
    }
}

proof fn lemma_windows_date_reads_back(month: int, day: int, year: int)
    requires
        1 <= month <= 12,
        1 <= day <= 31,
        100 <= year <= 9999,
    ensures
        ({
            let date = decimal(month) + seq!['-'] + decimal(day) + seq!['-'] + decimal(year);
            is_word(date) && windows_date(date) == Some((year, month, day))
        }),
{
    let (m, d, y) = (decimal(month), decimal(day), decimal(year));
    let date = m + seq!['-'] + d + seq!['-'] + y;
    lemma_digits_are_plain(month);
    lemma_digits_are_plain(day);
    lemma_digits_are_plain(year);
    let rest = d + seq!['-'] + y;
    assert(is_word(date)) by {
        lemma_word_joined(m, '-', d);
        lemma_word_joined(m + seq!['-'] + d, '-', y);
    }
    assert(cut_date(date) == Some((m, rest))) by {
        assert(date =~= m + seq!['-'] + rest);
        lemma_number_len(m, '-', rest);
    }
    assert(cut_date(rest) == Some((d, y))) by {
        lemma_number_len(d, '-', y);
    }
    assert(cut_date(y).is_none()) by {
        lemma_number_len_is(y, y.len() as int);
    }
    decimal_reads_back(month, u32::MAX as int);
    decimal_reads_back(day, u32::MAX as int);
    decimal_reads_back(year, i64::MAX as int);
    assert('0' <= y[0] <= '9');
}

pub(crate) proof fn lemma_word_joined(a: Seq<char>, c: char, b: Seq<char>)
    requires
        is_word(a),
        !is_white(c),
        is_word(b),
    ensures
        is_word(a + seq![c] + b),
{
    let s = a + seq![c] + b;
    assert forall|i: int| 0 <= i < s.len() implies !is_white(#[trigger] s[i]) by {
        if i < a.len() {
            assert(s[i] == a[i]);
        } else if i > a.len() {
            assert(s[i] == b[i - a.len() - 1]);
        }
    }
}

proof fn lemma_ampm_reads_back(hour: int, minute: int, pm: bool)
    requires
        1 <= hour <= 12,
        0 <= minute <= 59,
    ensures
        ({
            let time = decimal(hour) + seq![':'] + decimal(minute) + if pm {
                "PM"@
            } else {
                "AM"@
            };
            is_word(time) && ampm_time(time) == Some((hour, minute, pm))
        }),
{
    let (h, m) = (decimal(hour), decimal(minute));
    let mark = if pm {
        "PM"@
    } else {
        "AM"@
    };
    let time = h + seq![':'] + m + mark;
    reveal_strlit("AM");
    reveal_strlit("PM");
    reveal_strlit("am");
    reveal_strlit("pm");
    lemma_digits_are_plain(hour);
    lemma_digits_are_plain(minute);
    let n = time.len();
    assert(time.skip(n - 2) =~= mark);
    assert(time.take(n - 2) =~= h + seq![':'] + m);
    assert(lower_all(mark) =~= if pm {
        "pm"@
    } else {
        "am"@
    });
    assert("am"@ != "pm"@) by {
        assert("am"@[0] != "pm"@[0]);
    }
    assert(!h.contains(':'));
    cut_undoes_join(h, ':', m);
    decimal_reads_back(hour, u32::MAX as int);
    decimal_reads_back(minute, u32::MAX as int);
}

} // verus!

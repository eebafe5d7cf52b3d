use ftp_slint::calendar::days_from_civil;
use ftp_slint::ftp::order::sort_by_names;
use ftp_slint::ftp::parser::{
    instant_of, mode_string, parse_lines, parse_lines_at, parse_listing_line,
    parse_listing_line_at, parse_mlsd, parse_unix, parse_windows, sort_entries, unix_now,
    unread_lines_at,
};
use ftp_slint::ftp::types::FileEntry;

const NOW: i64 = 1_717_228_800;

fn ts(y: i64, m: u32, d: u32, hh: u32, mm: u32) -> i64 {
    days_from_civil(y, m, d) * 86_400 + i64::from(hh) * 3_600 + i64::from(mm) * 60
}

fn parse(line: &str) -> FileEntry {
    parse_listing_line_at(line, NOW).unwrap_or_else(|| panic!("应能解析: {line}"))
}

#[test]
fn unix_basic_dir_and_file() {
    let e = parse("drwxr-xr-x   2 ftp      ftp          4096 Jan 12  2024 pub");
    assert!(e.is_dir);
    assert_eq!(e.name, "pub");
    assert_eq!(e.size, 4096);
    assert_eq!(e.modified, Some(ts(2024, 1, 12, 0, 0)));
    assert_eq!(e.perms.as_deref(), Some("drwxr-xr-x"));

    let e = parse("-rw-r--r--   1 ftp      ftp           512 Jan 12  2024 readme.txt");
    assert!(!e.is_dir);
    assert_eq!(e.name, "readme.txt");
    assert_eq!(e.size, 512);
}

#[test]
fn unix_recent_time_infers_year_and_rolls_back() {
    let e = parse("drwxr-xr-x   5 ftp      ftp          4096 Sep 06 10:30 logs");
    assert_eq!(
        e.modified,
        Some(ts(2023, 9, 6, 10, 30)),
        "未来日期应回退一年"
    );

    let e = parse("-rw-r--r--   1 ftp      ftp          123 Mar 01 08:00 a.txt");
    assert_eq!(e.modified, Some(ts(2024, 3, 1, 8, 0)), "过去日期用当前年");
}

#[test]
fn unix_numeric_ids_and_symlink() {
    let e = parse("-rw-r--r--   1 0        0         1048576 Aug 01  2023 big.bin");
    assert_eq!(e.size, 1_048_576);
    assert_eq!(e.modified, Some(ts(2023, 8, 1, 0, 0)));

    let e = parse("lrwxrwxrwx   1 ftp      ftp             7 Jan 01  2024 latest -> pub");
    assert!(e.is_dir, "符号链接按目录处理");
    assert_eq!(e.name, "latest");
}

#[test]
fn unix_names_with_spaces_and_unicode() {
    let e = parse("drwxrwxrwx   2 ftp      ftp          4096 Feb 29 12:00 leap dir");
    assert_eq!(e.name, "leap dir");
    assert_eq!(e.modified, Some(ts(2024, 2, 29, 12, 0)));

    let e = parse("drwxr-xr-x   3 ftp      ftp          4096 Mar 03  2023 我 的 文件");
    assert_eq!(e.name, "我 的 文件");
}

#[test]
fn unix_dotfile_and_hidden_and_large_size() {
    let e = parse("-rw-r--r-- 1 ftp ftp 0 Dec 31 23:59 .hidden");
    assert_eq!(e.name, ".hidden");
    assert_eq!(e.size, 0);

    let e = parse("-rw-r--r--   1 ftp      ftp    1099511627776 Jul 20  2024 huge.img");
    assert_eq!(e.size, 1_099_511_627_776);
}

#[test]
fn unix_special_perm_chars() {
    let e = parse("drwxrwsr-x   2 ftp      ftp          4096 Jan 12  2024 shared");
    assert_eq!(e.name, "shared");
    let e = parse("-rwSr--r--   1 ftp      ftp           10 Jan 12  2024 setuid.bin");
    assert_eq!(e.name, "setuid.bin");
}

#[test]
fn unix_rejects_garbage() {
    assert!(parse_unix("total 20", NOW).is_none());
    assert!(parse_listing_line_at("total 20", NOW).is_none());
    assert!(parse_listing_line_at("", NOW).is_none());
    assert!(parse_listing_line_at("  ", NOW).is_none());
    assert!(parse_listing_line_at("random text line", NOW).is_none());
}

#[test]
fn windows_basic_dir_and_file() {
    let e = parse("03-15-24  10:32AM       <DIR>          pub");
    assert!(e.is_dir);
    assert_eq!(e.name, "pub");
    assert_eq!(e.modified, Some(ts(2024, 3, 15, 10, 32)));
    assert_eq!(e.size, 0);

    let e = parse("06-25-24  08:11AM       1234567 file.txt");
    assert!(!e.is_dir);
    assert_eq!(e.size, 1_234_567);
    assert_eq!(e.modified, Some(ts(2024, 6, 25, 8, 11)));
}

#[test]
fn windows_4digit_year_and_spaces() {
    let e = parse("01-01-2025  12:00AM       <DIR>          New folder");
    assert_eq!(e.name, "New folder");
    assert_eq!(e.modified, Some(ts(2025, 1, 1, 0, 0)), "12AM 即 0 点");

    let e = parse("07-04-24  03:05PM       10485760 big archive.zip");
    assert_eq!(e.name, "big archive.zip");
    assert_eq!(e.modified, Some(ts(2024, 7, 4, 15, 5)));
}

#[test]
fn windows_edge_names_and_zero() {
    let e = parse("12-31-23  11:59PM              0 zero.log");
    assert_eq!(e.name, "zero.log");
    assert_eq!(e.modified, Some(ts(2023, 12, 31, 23, 59)));

    let e = parse("05-05-05  05:05AM        999 data#1.txt");
    assert_eq!(e.name, "data#1.txt");

    let e = parse("11-11-11  11:11AM       <DIR>          .hidden");
    assert_eq!(e.name, ".hidden");

    let e = parse("08-20-24  09:00AM       <DIR>          我 的 目 录");
    assert_eq!(e.name, "我 的 目 录");
}

#[test]
fn windows_rejects_bad_time() {
    assert!(parse_windows("13-15-24  25:99AM       12 x.txt").is_none());
    assert!(parse_windows("garbage").is_none());
}

#[test]
fn mlsd_standard_facts() {
    let e = parse("type=dir;size=0;modify=20240112103000;UNIX.mode=0755; pub");
    assert!(e.is_dir);
    assert_eq!(e.name, "pub");
    assert_eq!(e.modified, Some(ts(2024, 1, 12, 10, 30)));
    assert_eq!(e.perms.as_deref(), Some("rwxr-xr-x"));

    let e = parse("type=file;size=512;modify=20240112080000;README.md");
    assert!(!e.is_dir);
    assert_eq!(e.name, "README.md");
    assert_eq!(e.size, 512);
}

#[test]
fn mlsd_spaces_after_semicolon_and_missing_facts() {
    let e = parse("type=dir; modify=20230707120000; 我 的目录");
    assert_eq!(e.name, "我 的目录");
    assert!(e.is_dir);
    assert_eq!(e.perms, None);

    let e = parse("type=file; a; b.txt");
    assert_eq!(e.name, "a; b.txt", "文件名包含分号仍可解析");
}

#[test]
fn mlsd_cdir_pdir_and_fractional_time() {
    let e = parse("type=cdir;modify=20240101000000;.");
    assert!(e.is_dir);
    let e = parse("type=pdir;modify=20240101000000;..");
    assert!(e.is_dir);
    let e = parse("type=file;size=7;modify=20240112103000.123; tiny.txt");
    assert_eq!(e.name, "tiny.txt");
    assert_eq!(e.size, 7);
}

#[test]
fn mlsd_large_size_and_octal_perm_variant() {
    let e = parse("type=file;size=4294967296;UNIX.mode=644;huge.dat");
    assert_eq!(e.size, 4_294_967_296);
    assert_eq!(e.perms.as_deref(), Some("rw-r--r--"));
}

#[test]
fn mlsd_rejects_non_mlsd_lines() {
    assert!(parse_mlsd("drwxr-xr-x   2 ftp      ftp          4096 Jan 12  2024 pub").is_none());
    assert!(parse_mlsd("03-15-24  10:32AM       <DIR>          pub").is_none());
    assert!(parse_mlsd("type=dir;").is_none());
}

#[test]
fn sort_dirs_first_case_insensitive() {
    let mut v = vec![
        FileEntry {
            name: "zeta".into(),
            is_dir: false,
            ..Default::default()
        },
        FileEntry {
            name: "Beta".into(),
            is_dir: false,
            ..Default::default()
        },
        FileEntry {
            name: "adir".into(),
            is_dir: true,
            ..Default::default()
        },
    ];
    sort_entries(&mut v);
    assert_eq!(v[0].name, "adir");
    assert_eq!(v[1].name, "Beta");
    assert_eq!(v[2].name, "zeta");
}

fn names(entries: &[FileEntry]) -> Vec<&str> {
    entries.iter().map(|e| e.name.as_str()).collect()
}

#[test]
fn line_ends_and_outer_white_space_do_not_count() {
    let line = "-rw-r--r-- 1 ftp ftp 5 Jan 12  2024 a b";
    let plain = parse(line);
    for framed in [format!("{line}\r\n"), format!("  {line}\t")] {
        assert_eq!(parse(&framed), plain);
    }
}

#[test]
fn totals_in_both_languages_are_skipped() {
    assert!(parse_listing_line_at("TOTAL 12", NOW).is_none());
    assert!(parse_listing_line_at("总计 12", NOW).is_none());
}

#[test]
fn mlsd_wins_over_other_readings() {
    let e = parse("type=file;size=3; -rw-r--r-- 1 ftp ftp 5 Jan 12  2024 x");
    assert_eq!(e.size, 3);
    assert_eq!(e.name, "-rw-r--r-- 1 ftp ftp 5 Jan 12  2024 x");
}

#[test]
fn unix_dates_that_are_refused() {
    for line in [
        "-rw-r--r-- 1 ftp ftp 5 Foo 12  2024 x",
        "-rw-r--r-- 1 ftp ftp 5 Jan 12  1969 x",
        "-rw-r--r-- 1 ftp ftp 5 Jan 12  2201 x",
        "-rw-r--r-- 1 ftp ftp 5 Jan 12  24:00 x",
        "-rw-r--r-- 1 ftp ftp 5 Jan 12  12:60 x",
        "-rw-r--r-- 1 ftp ftp x Jan 12  2024 x",
        "-rw-r--r-- 1 ftp ftp 5 Jan xx  2024 x",
        "?rw-r--r-- 1 ftp ftp 5 Jan 12  2024 x",
        "-rw-r--r-q 1 ftp ftp 5 Jan 12  2024 x",
        "-rw-r--r 1 ftp ftp 5 Jan 12  2024 x",
        "-rw-r--r-- 1 ftp ftp 5 Jan 12  2024",
    ] {
        assert!(parse_unix(line, NOW).is_none(), "{line}");
    }
}

#[test]
fn dates_up_to_a_day_ahead_belong_to_this_year() {
    // NOW is 2024-06-01 08:00.
    let e = parse("-rw-r--r-- 1 ftp ftp 5 Jun 02 08:00 x");
    assert_eq!(e.modified, Some(ts(2024, 6, 2, 8, 0)));
    let e = parse("-rw-r--r-- 1 ftp ftp 5 Jun 02 08:01 x");
    assert_eq!(e.modified, Some(ts(2023, 6, 2, 8, 1)));
}

#[test]
fn day_numbers_beyond_the_month_run_on() {
    let e = parse("-rw-r--r-- 1 ftp ftp 5 Feb 30  2023 x");
    assert_eq!(e.modified, Some(ts(2023, 3, 2, 0, 0)));
}

#[test]
fn unix_instants_that_do_not_fit_are_refused() {
    let line = "-rw-r--r-- 1 ftp ftp 5 Jan 4294967295  2024 x";
    assert_eq!(
        parse(line).modified,
        Some(ts(2024, 1, 1, 0, 0) + 4_294_967_294 * 86_400)
    );
    assert!(parse_windows("01-01-9223372036854775807 01:00AM 5 x").is_none());
}

#[test]
fn windows_forms() {
    let e = parse("1/2/99 1:05 5 x");
    assert_eq!(e.modified, Some(ts(2099, 1, 2, 1, 5)));
    let e = parse("12-31-1999 12:30pm <dir> x");
    assert_eq!(e.modified, Some(ts(1999, 12, 31, 12, 30)));
    assert!(e.is_dir);
    for line in [
        "13-01-24 01:00AM 5 x",
        "01-32-24 01:00AM 5 x",
        "01-01-24 13:00PM 5 x",
        "01-01-24 00:30AM 5 x",
        "01-01-24 01:60AM 5 x",
        "01-01-24 01:00AM five x",
        "01-01 01:00AM 5 x",
        "01-01-24 01:00AM 5",
    ] {
        assert!(parse_windows(line).is_none(), "{line}");
    }
}

#[test]
fn mlsd_values_that_cannot_be_read() {
    let e = parse("type=file;size=x;modify=2024;unix.mode=9; n");
    assert_eq!(e.size, 0);
    assert_eq!(e.modified, None);
    assert_eq!(e.perms.as_deref(), Some("---------"));
    let e = parse("Type=DIR;modify=20241301000000; n");
    assert!(e.is_dir);
    assert_eq!(e.modified, None);
}

#[test]
fn modes_in_letters() {
    assert_eq!(mode_string(0o755), "rwxr-xr-x");
    assert_eq!(mode_string(0o640), "rw-r-----");
    assert_eq!(mode_string(0), "---------");
    assert_eq!(mode_string(0o100_777), "rwxrwxrwx");
}

#[test]
fn listings_hide_dots_and_keep_the_order() {
    let lines: Vec<String> = [
        "type=cdir; .",
        "type=pdir; ..",
        "total 3",
        "type=file; b",
        "nonsense",
        "type=file; a",
    ]
    .iter()
    .map(|s| s.to_string())
    .collect();
    assert_eq!(names(&parse_lines_at(&lines, NOW)), ["b", "a"]);
    assert_eq!(names(&parse_lines(&lines)), ["b", "a"]);
}

#[test]
fn the_clock_tells_the_year_of_recent_dates() {
    let now = unix_now();
    assert!(now > 1_700_000_000);
    let e = parse_listing_line("-rw-r--r-- 1 ftp ftp 5 Jan 01 00:00 x").unwrap();
    let modified = e.modified.unwrap();
    assert!(modified <= unix_now() + 86_400);
    assert!(modified > now - 367 * 86_400);
}

#[test]
fn clock_readings_that_do_not_fit() {
    assert_eq!(instant_of(Some(5)), 5);
    assert_eq!(instant_of(Some(u64::MAX)), 0);
    assert_eq!(instant_of(None), 0);
}

fn file(name: &str, is_dir: bool, size: u64) -> FileEntry {
    FileEntry {
        name: name.to_string(),
        is_dir,
        size,
        ..Default::default()
    }
}

#[test]
fn sorting_keeps_equal_entries_in_order() {
    let mut v = vec![
        file("b", false, 1),
        file("B", false, 2),
        file("É", false, 3),
        file("é", false, 4),
        file("a", false, 5),
        file("Z", true, 6),
        file("b", false, 7),
    ];
    sort_entries(&mut v);
    let sizes: Vec<u64> = v.iter().map(|e| e.size).collect();
    assert_eq!(sizes, [6, 5, 1, 2, 7, 3, 4]);
    let once = v.clone();
    sort_entries(&mut v);
    assert_eq!(v, once);
}

#[test]
fn sorting_agrees_with_std() {
    let mut seed: u32 = 12_345;
    for len in 0..40usize {
        let mut v: Vec<FileEntry> = Vec::new();
        for i in 0..len {
            seed = seed.wrapping_mul(1_103_515_245).wrapping_add(12_345);
            let letters = ["a", "A", "b", "ß", "ẞ", "Σ", "σ", "我", "10", "9", "aa"];
            let name = letters[(seed >> 16) as usize % letters.len()];
            v.push(file(name, seed & 0x100 == 0, i as u64));
        }
        let mut std = v.clone();
        std.sort_by(|a, b| {
            b.is_dir
                .cmp(&a.is_dir)
                .then_with(|| a.name.to_lowercase().cmp(&b.name.to_lowercase()))
        });
        sort_entries(&mut v);
        assert_eq!(v, std);
    }
}

#[test]
fn unix_lines_say_what_they_were_made_of() {
    for (month, number) in [("Jan", 1), ("jul", 7), ("DECEMBER", 12)] {
        for (day, year) in [(1, 1970), (29, 2024), (31, 2200)] {
            for name in ["a", "a b", "我 的", "x->y"] {
                let line = format!("lrwxrwxrwt 1 o g 12345 {month} {day} {year} {name}");
                let e = parse_unix(&line, 0).unwrap();
                assert_eq!(e.name, name);
                assert!(e.is_dir);
                assert_eq!(e.size, 12_345);
                assert_eq!(e.modified, Some(ts(year, number, day, 0, 0)));
                assert_eq!(e.perms.as_deref(), Some("lrwxrwxrwt"));
            }
        }
    }
}

#[test]
fn windows_lines_say_what_they_were_made_of() {
    for (hour, mark, of_day) in [(12, "AM", 0), (1, "AM", 1), (12, "PM", 12), (11, "PM", 23)] {
        for kind in ["<DIR>", "0", "18446744073709551615"] {
            let line = format!("2-31-100 {hour}:7{mark} {kind} a b");
            let e = parse_windows(&line).unwrap();
            assert_eq!(e.name, "a b");
            assert_eq!(e.is_dir, kind == "<DIR>");
            assert_eq!(e.size, kind.parse().unwrap_or(0));
            assert_eq!(e.modified, Some(ts(100, 3, 3, of_day, 7)));
        }
    }
}

#[test]
fn mlsd_facts_are_found_again() {
    let e = parse_mlsd("Type=file;Size=7;Other=a=b;Modify=19991231235900;UNIX.mode=0640;n; o=p").unwrap();
    assert_eq!(e.name, "n; o=p");
    assert_eq!(e.size, 7);
    assert_eq!(e.modified, Some(ts(1999, 12, 31, 23, 59)));
    assert_eq!(e.perms.as_deref(), Some("rw-r-----"));
}

#[test]
fn sorting_by_given_names() {
    let mut v = vec![file("x", false, 1), file("y", false, 2), file("z", true, 3), file("w", false, 4)];
    let keys: Vec<String> = ["b", "a", "q", "b"].iter().map(|s| s.to_string()).collect();
    sort_by_names(&mut v, &keys);
    assert_eq!(names(&v), ["z", "y", "x", "w"]);
}

#[test]
fn unread_lines_are_told_as_they_came() {
    let lines: Vec<String> = [
        "total 8",
        "type=file; a",
        " garbage line\r",
        "",
        "  \t",
        "总计 3",
        "-rw-r--r-- 1 u g notanumber Jan 12 2024 x",
        "type=cdir; .",
        "01-02-24  13:00AM  5 late.txt",
    ]
    .iter()
    .map(|s| s.to_string())
    .collect();
    assert_eq!(
        unread_lines_at(&lines, NOW),
        [
            " garbage line\r",
            "-rw-r--r-- 1 u g notanumber Jan 12 2024 x",
            "01-02-24  13:00AM  5 late.txt",
        ]
    );
    assert_eq!(names(&parse_lines_at(&lines, NOW)), ["a"]);
    assert!(unread_lines_at(&[], NOW).is_empty());
}

#[test]
fn afternoons_are_twelve_hours_later() {
    for time in ["12:00", "12:59", "1:05", "01:05", "11:59"] {
        for kind in ["<DIR>", "42"] {
            let am = parse_windows(&format!("01-02-24  {time}AM  {kind}  a b.txt")).unwrap();
            let pm = parse_windows(&format!("01-02-24  {time}pm  {kind}  a b.txt")).unwrap();
            assert_eq!(pm.modified.unwrap() - am.modified.unwrap(), 43_200);
            assert_eq!(pm.name, am.name);
            assert_eq!((pm.is_dir, pm.size, pm.perms), (am.is_dir, am.size, am.perms));
        }
    }
    assert!(parse_windows("12-04-292277026596  08:00AM  1  a").is_some());
    assert!(parse_windows("12-04-292277026596  08:00PM  1  a").is_none());
}

#[test]
fn mlsd_facts_stand_in_any_order() {
    let plain = parse_mlsd("type=dir;size=7;modify=20240112103000;UNIX.mode=0755; a b").unwrap();
    for line in [
        "unix.mode=0755;modify=20240112103000;size=7;type=dir; a b",
        "TYPE=dir;Size=7;MODIFY=20240112103000;unix.MODE=0755; a b",
        "  type=dir; \tsize=7; modify=20240112103000; UNIX.mode=0755; a b",
        "unique=x;type=dir;perm=el;size=7;modify=20240112103000;UNIX.mode=0755;lang=en; a b",
    ] {
        let other = parse_mlsd(line).unwrap();
        assert_eq!(other.name, plain.name);
        assert_eq!((other.is_dir, other.size), (plain.is_dir, plain.size));
        assert_eq!((other.modified, other.perms), (plain.modified, plain.perms.clone()));
    }
    assert_eq!(plain.perms.as_deref(), Some("rwxr-xr-x"));
}

#[test]
fn recent_dates_are_recent() {
    for (i, month) in ["Jan", "Feb", "Mar", "Apr", "May", "Jun", "Jul", "Aug"].iter().enumerate() {
        for now in [NOW, NOW + 20_000_000, ts(2024, 1, 1, 0, 0), ts(2024, 12, 31, 23, 59)] {
            let line = format!("-rw-r--r-- 1 u g 1 {month} {} 10:30 f", 3 + i);
            let at = parse_unix(&line, now).unwrap().modified.unwrap();
            assert!(now - 366 * 86_400 < at && at <= now + 86_400);
        }
    }
}

#[test]
fn only_times_of_day_need_the_clock() {
    for line in [
        "type=file;modify=20240112103000; a",
        "-rw-r--r-- 1 u g 1 Jan 12 2024 f",
        "01-02-24  10:00AM  5 late.txt",
        "01-02-24  10:00AM  5 a b c d 1:2 e f",
    ] {
        let early = parse_listing_line_at(line, 0).unwrap();
        let late = parse_listing_line_at(line, NOW).unwrap();
        assert_eq!(early.modified, late.modified);
        assert_eq!(early.name, late.name);
    }
    let dated = "-rw-r--r-- 1 u g 1 Jan 12 10:30 f";
    assert_ne!(
        parse_listing_line_at(dated, 0).unwrap().modified,
        parse_listing_line_at(dated, NOW).unwrap().modified
    );
}

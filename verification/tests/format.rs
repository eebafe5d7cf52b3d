use ftp_slint::format::{fmt_size, fmt_time, text_or_blank};

/// The same size by floating-point arithmetic.
fn by_float(bytes: u64) -> String {
    let units = ["B", "KB", "MB", "GB", "TB"];
    let mut value = bytes as f64;
    let mut unit = 0;
    while value >= 1024.0 && unit < units.len() - 1 {
        value /= 1024.0;
        unit += 1;
    }
    if unit == 0 {
        format!("{bytes} B")
    } else {
        format!("{value:.1} {}", units[unit])
    }
}

#[test]
fn sizes_in_words() {
    assert_eq!(fmt_size(0), "0 B");
    assert_eq!(fmt_size(1023), "1023 B");
    assert_eq!(fmt_size(1024), "1.0 KB");
    assert_eq!(fmt_size(1536), "1.5 KB");
    assert_eq!(fmt_size(1_048_576), "1.0 MB");
    assert_eq!(fmt_size(1_048_575), "1024.0 KB");
    assert_eq!(fmt_size(5_368_709_120), "5.0 GB");
    assert_eq!(fmt_size(1_099_511_627_776), "1.0 TB");
    assert_eq!(fmt_size(u64::MAX), "16777216.0 TB");
}

#[test]
fn ties_go_to_the_even_tenth() {
    // 1.25 KB and 1.75 KB lie between two tenths.
    assert_eq!(fmt_size(1280), "1.2 KB");
    assert_eq!(fmt_size(1792), "1.8 KB");
}

#[test]
fn sizes_agree_with_floating_point() {
    for bytes in 0..70_000u64 {
        assert_eq!(fmt_size(bytes), by_float(bytes));
    }
    let mut seed: u64 = 0x9e37_79b9_7f4a_7c15;
    for i in 0..200_000u64 {
        seed ^= seed << 13;
        seed ^= seed >> 7;
        seed ^= seed << 17;
        let bytes = seed >> (i % 64);
        assert_eq!(fmt_size(bytes), by_float(bytes), "{bytes}");
    }
    for shift in 0..64u32 {
        let power = 1u64 << shift;
        for near in [power - 1, power, power + 1, power + power / 20] {
            assert_eq!(fmt_size(near), by_float(near), "{near}");
        }
    }
    for near in (u64::MAX - 3000)..=u64::MAX {
        assert_eq!(fmt_size(near), by_float(near), "{near}");
    }
}

#[test]
fn times_in_words() {
    assert_eq!(fmt_time(None), "");
    // 2024-06-15 12:00 UTC: the day is the same, or the one before or after, on every clock.
    let text = fmt_time(Some(1_718_452_800));
    assert_eq!(text.len(), 16);
    assert!(
        text.starts_with("2024-06-14 ")
            || text.starts_with("2024-06-15 ")
            || text.starts_with("2024-06-16 "),
        "{text}"
    );
    assert_eq!(text.as_bytes()[13], b':');
}

#[test]
fn far_times_are_not_shown() {
    assert_eq!(fmt_time(Some(i64::MAX)), "");
    assert_eq!(fmt_time(Some(i64::MIN)), "");
    // The first instant of the year 262143, and the last one before it.
    let end = ftp_slint::calendar::days_from_civil(262_143, 1, 1) * 86_400;
    assert_eq!(fmt_time(Some(end)), "");
    assert!(fmt_time(Some(end - 1)).starts_with("+26214"));
    let start = ftp_slint::calendar::days_from_civil(-262_143, 1, 1) * 86_400;
    assert_eq!(fmt_time(Some(start - 1)), "");
    assert!(fmt_time(Some(start)).starts_with("-26214"));
}

#[test]
fn early_years_have_four_digits() {
    let at = ftp_slint::calendar::days_from_civil(87, 6, 15) * 86_400 + 43_200;
    assert!(fmt_time(Some(at)).starts_with("0087-06-1"));
    let at = ftp_slint::calendar::days_from_civil(-5, 6, 15) * 86_400 + 43_200;
    assert!(fmt_time(Some(at)).starts_with("-0005-06-1"));
}

#[test]
fn missing_texts_are_blank() {
    assert_eq!(text_or_blank(Some("x".to_string())), "x");
    assert_eq!(text_or_blank(None), "");
}

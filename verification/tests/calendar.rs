use ftp_slint::calendar::{
    checked_ts, civil_year_len, days_from_civil, ts_from_ymdhm, year_of,
};

#[test]
fn days_are_counted_from_the_epoch() {
    assert_eq!(days_from_civil(1970, 1, 1), 0);
    assert_eq!(days_from_civil(1970, 1, 2), 1);
    assert_eq!(days_from_civil(1969, 12, 31), -1);
    assert_eq!(days_from_civil(2000, 2, 29), 11_016);
    assert_eq!(days_from_civil(2000, 3, 1), 11_017);
    assert_eq!(days_from_civil(2024, 6, 1), 19_875);
    assert_eq!(days_from_civil(0, 3, 1), -719_468);
}

#[test]
fn days_follow_one_another() {
    let lens = [31, 28, 31, 30, 31, 30, 31, 31, 30, 31, 30, 31];
    let mut day = days_from_civil(1896, 1, 1);
    for year in 1896..2105 {
        for month in 1..=12u32 {
            let leap = month == 2 && civil_year_len(year) == 366;
            let len = lens[month as usize - 1] + u32::from(leap);
            for d in 1..=len {
                assert_eq!(days_from_civil(year, month, d), day);
                day += 1;
            }
        }
    }
}

#[test]
fn year_lengths() {
    assert_eq!(civil_year_len(2023), 365);
    assert_eq!(civil_year_len(2024), 366);
    assert_eq!(civil_year_len(1900), 365);
    assert_eq!(civil_year_len(2000), 366);
}

#[test]
fn years_of_instants() {
    assert_eq!(year_of(0), 1970);
    assert_eq!(year_of(1_717_228_800), 2024);
    assert_eq!(year_of(1_704_067_199), 2023);
    assert_eq!(year_of(1_704_067_200), 2024);
}

#[test]
fn minutes_of_a_day() {
    assert_eq!(ts_from_ymdhm(1970, 1, 1, 0, 0), 0);
    assert_eq!(ts_from_ymdhm(1970, 1, 1, 1, 1), 3_660);
    assert_eq!(ts_from_ymdhm(2024, 1, 12, 10, 30), 1_705_055_400);
    assert_eq!(checked_ts(2024, 1, 12, 10, 30), Some(1_705_055_400));
    assert_eq!(checked_ts(i64::MAX, 1, 1, 0, 0), None);
    assert_eq!(checked_ts(i64::MIN, 12, 31, 0, 0), None);
}

#[test]
fn dates_come_back_within_366_days() {
    for year in [1899, 1900, 1999, 2000, 2023, 2024] {
        for (month, day) in [(1, 1), (2, 28), (2, 29), (3, 1), (12, 31)] {
            let apart = days_from_civil(year + 1, month, day) - days_from_civil(year, month, day);
            assert!(apart == 365 || apart == 366);
        }
    }
}

use fit_index::{
    offerable_variants_at, time_range_at, BucketKind, CurrentInstant, TimeBucket,
};

// 2025-08-14T10:00:00Z, a Thursday.
const AUG_14_2025_10H: i64 = 1755165600;

fn august_2025() -> CurrentInstant {
    CurrentInstant { timestamp: AUG_14_2025_10H, year: 2025, month: 8 }
}

#[test]
fn all_variants_lists_every_bucket_once() {
    let all = TimeBucket::all_variants();
    assert_eq!(all.len(), 28);
    assert_eq!(all[0], TimeBucket::OneWeek);
    assert_eq!(all[3], TimeBucket::FourWeeks);
    assert_eq!(all[4], TimeBucket::JanuaryThisYear);
    assert_eq!(all[15], TimeBucket::DecemberThisYear);
    assert_eq!(all[16], TimeBucket::JanuaryLastYear);
    assert_eq!(all[27], TimeBucket::DecemberLastYear);
    for (i, a) in all.iter().enumerate() {
        for b in all.iter().skip(i + 1) {
            assert_ne!(a, b);
        }
    }
}

#[test]
fn kinds_follow_the_table() {
    assert_eq!(TimeBucket::ThreeWeeks.kind(), BucketKind::Weeks(3));
    assert_eq!(
        TimeBucket::MarchThisYear.kind(),
        BucketKind::Month { month: 3, last_year: false }
    );
    assert_eq!(
        TimeBucket::NovemberLastYear.kind(),
        BucketKind::Month { month: 11, last_year: true }
    );
}

#[test]
fn one_week_starts_on_the_last_sunday() {
    // Sunday 2025-08-10T00:00:00Z.
    let r = time_range_at(TimeBucket::OneWeek, &august_2025());
    assert_eq!(r, Some((1754784000, AUG_14_2025_10H)));
}

#[test]
fn weekly_buckets_go_back_whole_weeks() {
    let now = august_2025();
    let one = time_range_at(TimeBucket::OneWeek, &now).unwrap();
    let two = time_range_at(TimeBucket::TwoWeeks, &now).unwrap();
    let three = time_range_at(TimeBucket::ThreeWeeks, &now).unwrap();
    let four = time_range_at(TimeBucket::FourWeeks, &now).unwrap();
    assert_eq!(two.0, one.0 - 604800);
    assert_eq!(three.0, one.0 - 2 * 604800);
    assert_eq!(four.0, one.0 - 3 * 604800);
    for r in [one, two, three, four] {
        assert_eq!(r.1, AUG_14_2025_10H);
        assert_eq!(r.0 % 86400, 0);
        // Day 0 of the epoch was a Thursday: Sundays are 3 days on, modulo 7.
        assert_eq!((r.0 / 86400) % 7, 3);
    }
}

#[test]
fn week_read_on_a_sunday_starts_that_day() {
    // Sunday 2025-08-10T23:59:59Z.
    let now = CurrentInstant { timestamp: 1754870399, year: 2025, month: 8 };
    let r = time_range_at(TimeBucket::OneWeek, &now);
    assert_eq!(r, Some((1754784000, 1754870399)));
}

#[test]
fn week_before_the_epoch() {
    // 1969-12-31T12:00:00Z, a Wednesday; the Sunday before is 1969-12-28.
    let now = CurrentInstant { timestamp: -43200, year: 1969, month: 12 };
    let r = time_range_at(TimeBucket::OneWeek, &now);
    assert_eq!(r, Some((-345600, -43200)));
}

#[test]
fn month_this_year_covers_the_whole_month() {
    // 2025-08-01T00:00:00Z to 2025-08-31T23:59:59Z.
    let r = time_range_at(TimeBucket::AugustThisYear, &august_2025());
    assert_eq!(r, Some((1754006400, 1756684799)));
}

#[test]
fn february_of_a_leap_year() {
    // 2024-02-01T00:00:00Z to 2024-02-29T23:59:59Z.
    let r = time_range_at(TimeBucket::FebruaryLastYear, &august_2025());
    assert_eq!(r, Some((1706745600, 1709251199)));
}

#[test]
fn consecutive_months_adjoin() {
    let now = august_2025();
    let all = TimeBucket::all_variants();
    for i in 4..27 {
        if i == 15 {
            continue;
        }
        let a = time_range_at(all[i], &now).unwrap();
        let b = time_range_at(all[i + 1], &now).unwrap();
        assert_eq!(a.1 + 1, b.0);
        assert!(a.0 <= a.1);
    }
}

#[test]
fn december_rolls_into_january() {
    let now = august_2025();
    let dec = time_range_at(TimeBucket::DecemberLastYear, &now).unwrap();
    let jan = time_range_at(TimeBucket::JanuaryThisYear, &now).unwrap();
    // 2024-12-01T00:00:00Z to 2024-12-31T23:59:59Z, then 2025-01-01T00:00:00Z.
    assert_eq!(dec, (1733011200, 1735689599));
    assert_eq!(dec.1 + 1, jan.0);
    let dec_this = time_range_at(TimeBucket::DecemberThisYear, &now).unwrap();
    assert_eq!(dec_this.1, 1767225599);
}

#[test]
fn month_at_the_end_of_the_calendar() {
    let now = CurrentInstant { timestamp: 0, year: 262142, month: 12 };
    assert_eq!(time_range_at(TimeBucket::DecemberThisYear, &now), None);
    assert!(time_range_at(TimeBucket::NovemberThisYear, &now).is_some());
}

#[test]
fn offerable_in_august() {
    let r = offerable_variants_at(8);
    assert_eq!(r.len(), 4 + 8 + 12);
    assert!(r.contains(&TimeBucket::AugustThisYear));
    assert!(!r.contains(&TimeBucket::SeptemberThisYear));
    assert!(!r.contains(&TimeBucket::DecemberThisYear));
    assert!(r.contains(&TimeBucket::DecemberLastYear));
    assert_eq!(r[0], TimeBucket::OneWeek);
    assert_eq!(r[11], TimeBucket::AugustThisYear);
    assert_eq!(r[12], TimeBucket::JanuaryLastYear);
}

#[test]
fn offerable_in_january_and_december() {
    let jan = offerable_variants_at(1);
    assert_eq!(jan.len(), 17);
    assert_eq!(jan[4], TimeBucket::JanuaryThisYear);
    assert_eq!(jan[5], TimeBucket::JanuaryLastYear);
    assert_eq!(offerable_variants_at(12), TimeBucket::all_variants());
}

#[test]
fn labels() {
    assert_eq!(TimeBucket::OneWeek.label_at(2025), "One week");
    assert_eq!(TimeBucket::FourWeeks.label_at(2025), "Four weeks");
    assert_eq!(TimeBucket::MarchThisYear.label_at(2025), "March 2025");
    assert_eq!(TimeBucket::MarchLastYear.label_at(2025), "March 2024");
    assert_eq!(TimeBucket::JanuaryLastYear.label_at(2000), "January 1999");
    assert_eq!(TimeBucket::JuneLastYear.label_at(-5), "June -6");
}

#[test]
fn clock_based_calls_agree_with_the_calculator() {
    let filtered = fit_index::get_filtered_variants();
    assert!(filtered.len() >= 17 && filtered.len() <= 28);
    assert!(filtered.contains(&TimeBucket::JanuaryThisYear));
    let r = fit_index::get_time_range(TimeBucket::OneWeek).unwrap();
    assert!(r.0 <= r.1 && r.1 - r.0 < 7 * 86400);
    assert!(TimeBucket::MayLastYear.get_label().starts_with("May "));
}

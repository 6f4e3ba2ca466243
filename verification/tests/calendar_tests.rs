use genso_save::calendar::GensoDate;

#[test]
fn add_day_zero_keeps_date() {
    let mut d = GensoDate::new(112, 7, 23);
    d.add_day(0);
    assert_eq!(d, GensoDate::new(112, 7, 23));
    let mut d2 = GensoDate::new(3, 2, 28);
    d2.add_day(0);
    assert_eq!(d2, GensoDate::new(3, 2, 28));
}

#[test]
fn add_day_keeps_dates_normalized() {
    for start_month in 1..=12u8 {
        let mut d = GensoDate::new(50, start_month, 1);
        for _ in 0..40 {
            d.add_day(3);
            assert!(d.day >= 1);
            assert!((1..=12).contains(&d.month));
        }
    }
}

#[test]
fn epoch_is_week_first_and_rolls_over() {
    let epoch = GensoDate::new(112, 7, 23);
    assert!(epoch.is_week_first());
    assert!(epoch.first_day());

    let mut d = epoch;
    d.add_day(7);
    assert_eq!(d, GensoDate::new(112, 7, 30));
    assert!(d.is_week_first());

    // Month 7 has 31 days, so one more day reaches its last day...
    let mut e = d;
    e.add_day(1);
    assert_eq!(e, GensoDate::new(112, 7, 31));

    // ...and two more days from 7/30 roll into month 8.
    let mut f = d;
    f.add_day(2);
    assert_eq!(f, GensoDate::new(112, 8, 1));
}

#[test]
fn add_day_rolls_month_and_season() {
    let mut d = GensoDate::new(112, 1, 31);
    d.add_day(1);
    assert_eq!(d, GensoDate::new(112, 2, 1));

    let mut e = GensoDate::new(112, 12, 31);
    e.add_day(1);
    assert_eq!(e, GensoDate::new(113, 1, 1));

    // months five and six are both thirty days long
    let mut f = GensoDate::new(7, 5, 30);
    f.add_day(1);
    assert_eq!(f, GensoDate::new(7, 6, 1));
    f.add_day(30);
    assert_eq!(f, GensoDate::new(7, 7, 1));
}

#[test]
fn add_day_chain_composes() {
    let d = GensoDate::new(112, 5, 1).add_day_chain(29).add_day_chain(1);
    assert_eq!(d, GensoDate::new(112, 6, 1));
}

#[test]
fn diff_day_scenarios() {
    // Forward within one month.
    let a = GensoDate::new(112, 7, 1);
    let b = GensoDate::new(112, 7, 8);
    assert_eq!(a.diff_day(&b), 7);
    // Backward within one month: the sign is lost, by design.
    assert_eq!(b.diff_day(&a), 7);
    // Across a month boundary the result is signed.
    let c = GensoDate::new(112, 8, 1);
    assert_eq!(a.diff_day(&c), 31);
    assert_eq!(c.diff_day(&a), -31);
}

#[test]
fn is_past_is_strict_lexicographic() {
    let d = GensoDate::new(112, 7, 23);
    assert!(!d.is_past(&d));
    assert!(d.is_past(&GensoDate::new(112, 7, 22)));
    assert!(d.is_past(&GensoDate::new(112, 6, 30)));
    assert!(d.is_past(&GensoDate::new(111, 12, 31)));
    assert!(!d.is_past(&GensoDate::new(112, 7, 24)));
    assert!(!d.is_past(&GensoDate::new(113, 1, 1)));
}

#[test]
fn renderings() {
    let d = GensoDate::new(112, 7, 23);
    assert_eq!(d.to_string(), "112季 7月 23日");
    assert_eq!(d.to_short_string(), "7月23日");
    assert_eq!(d.to_month_string_eng_short(), "Jul.");
    assert_eq!(GensoDate::new(1, 5, 1).to_month_string_eng_short(), "May");
    // Out-of-range months fall back to the December abbreviation.
    assert_eq!(GensoDate::new_empty().to_month_string_eng_short(), "Dec.");
}

#[test]
fn new_empty_is_zeroed_placeholder() {
    let d = GensoDate::new_empty();
    assert_eq!(d.season, 0);
    assert_eq!(d.month, 0);
    assert_eq!(d.day, 0);
}

#[test]
fn week_first_depends_on_epoch_distance() {
    assert!(GensoDate::new(112, 7, 16).is_week_first());
    assert!(!GensoDate::new(112, 7, 24).is_week_first());
    assert!(GensoDate::new(112, 8, 1).is_week_first() == false);
    // 7/30 + 2 = 8/1 is nine days past the epoch; 8/6 is fourteen.
    assert!(GensoDate::new(112, 8, 6).is_week_first());
}

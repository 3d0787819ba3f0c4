use stash::interval::DateTimeField::{Day, Hour, Minute, Month, Second, Year};
use stash::interval::{DateTimeField, Duration, Interval};

#[test]
fn interval_fmt() {
    fn mon(mon: i64) -> String {
        Interval {
            months: mon,
            ..Default::default()
        }
        .to_string()
    }

    assert_eq!(mon(1), "1 month");
    assert_eq!(mon(12), "1 year");
    assert_eq!(mon(13), "1 year 1 month");
    assert_eq!(mon(24), "2 years");
    assert_eq!(mon(25), "2 years 1 month");
    assert_eq!(mon(26), "2 years 2 months");

    fn dur(is_positive_dur: bool, d: u64) -> String {
        Interval {
            months: 0,
            duration: Duration::from_secs(d),
            is_positive_dur,
        }
        .to_string()
    }
    assert_eq!(&dur(true, 86_400 * 2), "2 days");
    assert_eq!(&dur(true, 86_400 * 2 + 3_600 * 3), "2 days 03:00:00");
    assert_eq!(
        &dur(true, 86_400 * 2 + 3_600 * 3 + 60 * 45 + 6),
        "2 days 03:45:06"
    );
    assert_eq!(
        &dur(true, 86_400 * 2 + 3_600 * 3 + 60 * 45),
        "2 days 03:45:00"
    );
    assert_eq!(&dur(true, 86_400 * 2 + 6), "2 days 00:00:06");
    assert_eq!(&dur(true, 86_400 * 2 + 60 * 45 + 6), "2 days 00:45:06");
    assert_eq!(&dur(true, 86_400 * 2 + 3_600 * 3 + 6), "2 days 03:00:06");
    assert_eq!(&dur(true, 3_600 * 3 + 60 * 45 + 6), "03:45:06");
    assert_eq!(&dur(true, 3_600 * 3 + 6), "03:00:06");
    assert_eq!(&dur(true, 3_600 * 3), "03:00:00");
    assert_eq!(&dur(true, 60 * 45 + 6), "00:45:06");
    assert_eq!(&dur(true, 60 * 45), "00:45:00");
    assert_eq!(&dur(true, 6), "00:00:06");

    assert_eq!(&dur(false, 86_400 * 2 + 6), "-2 days -00:00:06");
    assert_eq!(&dur(false, 86_400 * 2 + 60 * 45 + 6), "-2 days -00:45:06");
    assert_eq!(&dur(false, 86_400 * 2 + 3_600 * 3 + 6), "-2 days -03:00:06");
    assert_eq!(&dur(false, 3_600 * 3 + 60 * 45 + 6), "-03:45:06");
    assert_eq!(&dur(false, 3_600 * 3 + 6), "-03:00:06");
    assert_eq!(&dur(false, 3_600 * 3), "-03:00:00");
    assert_eq!(&dur(false, 60 * 45 + 6), "-00:45:06");
    assert_eq!(&dur(false, 60 * 45), "-00:45:00");
    assert_eq!(&dur(false, 6), "-00:00:06");

    fn mon_dur(mon: i64, is_positive_dur: bool, d: u64) -> String {
        Interval {
            months: mon,
            duration: Duration::from_secs(d),
            is_positive_dur,
        }
        .to_string()
    }
    assert_eq!(&mon_dur(1, true, 86_400 * 2 + 6), "1 month 2 days 00:00:06");
    assert_eq!(
        &mon_dur(1, true, 86_400 * 2 + 60 * 45 + 6),
        "1 month 2 days 00:45:06"
    );
    assert_eq!(
        &mon_dur(1, true, 86_400 * 2 + 3_600 * 3 + 6),
        "1 month 2 days 03:00:06"
    );
    assert_eq!(
        &mon_dur(26, true, 3_600 * 3 + 60 * 45 + 6),
        "2 years 2 months 03:45:06"
    );
    assert_eq!(
        &mon_dur(26, true, 3_600 * 3 + 6),
        "2 years 2 months 03:00:06"
    );
    assert_eq!(&mon_dur(26, true, 3_600 * 3), "2 years 2 months 03:00:00");
    assert_eq!(&mon_dur(26, true, 60 * 45 + 6), "2 years 2 months 00:45:06");
    assert_eq!(&mon_dur(26, true, 60 * 45), "2 years 2 months 00:45:00");
    assert_eq!(&mon_dur(26, true, 6), "2 years 2 months 00:00:06");

    assert_eq!(
        &mon_dur(26, false, 86_400 * 2 + 6),
        "2 years 2 months -2 days -00:00:06"
    );
    assert_eq!(
        &mon_dur(26, false, 86_400 * 2 + 60 * 45 + 6),
        "2 years 2 months -2 days -00:45:06"
    );
    assert_eq!(
        &mon_dur(26, false, 86_400 * 2 + 3_600 * 3 + 6),
        "2 years 2 months -2 days -03:00:06"
    );
    assert_eq!(
        &mon_dur(26, false, 3_600 * 3 + 60 * 45 + 6),
        "2 years 2 months -03:45:06"
    );
    assert_eq!(
        &mon_dur(26, false, 3_600 * 3 + 6),
        "2 years 2 months -03:00:06"
    );
    assert_eq!(&mon_dur(26, false, 3_600 * 3), "2 years 2 months -03:00:00");
    assert_eq!(
        &mon_dur(26, false, 60 * 45 + 6),
        "2 years 2 months -00:45:06"
    );
    assert_eq!(&mon_dur(26, false, 60 * 45), "2 years 2 months -00:45:00");
    assert_eq!(&mon_dur(26, false, 6), "2 years 2 months -00:00:06");

    assert_eq!(
        &mon_dur(-1, true, 86_400 * 2 + 6),
        "-1 month +2 days +00:00:06"
    );
    assert_eq!(
        &mon_dur(-1, true, 86_400 * 2 + 60 * 45 + 6),
        "-1 month +2 days +00:45:06"
    );
    assert_eq!(
        &mon_dur(-1, true, 86_400 * 2 + 3_600 * 3 + 6),
        "-1 month +2 days +03:00:06"
    );
    assert_eq!(
        &mon_dur(-26, true, 3_600 * 3 + 60 * 45 + 6),
        "-2 years -2 months +03:45:06"
    );
    assert_eq!(
        &mon_dur(-26, true, 3_600 * 3 + 6),
        "-2 years -2 months +03:00:06"
    );
    assert_eq!(
        &mon_dur(-26, true, 3_600 * 3),
        "-2 years -2 months +03:00:00"
    );
    assert_eq!(
        &mon_dur(-26, true, 60 * 45 + 6),
        "-2 years -2 months +00:45:06"
    );
    assert_eq!(&mon_dur(-26, true, 60 * 45), "-2 years -2 months +00:45:00");
    assert_eq!(&mon_dur(-26, true, 6), "-2 years -2 months +00:00:06");

    assert_eq!(
        &mon_dur(-26, false, 86_400 * 2 + 6),
        "-2 years -2 months -2 days -00:00:06"
    );
    assert_eq!(
        &mon_dur(-26, false, 86_400 * 2 + 60 * 45 + 6),
        "-2 years -2 months -2 days -00:45:06"
    );
    assert_eq!(
        &mon_dur(-26, false, 86_400 * 2 + 3_600 * 3 + 6),
        "-2 years -2 months -2 days -03:00:06"
    );
    assert_eq!(
        &mon_dur(-26, false, 3_600 * 3 + 60 * 45 + 6),
        "-2 years -2 months -03:45:06"
    );
    assert_eq!(
        &mon_dur(-26, false, 3_600 * 3 + 6),
        "-2 years -2 months -03:00:06"
    );
    assert_eq!(
        &mon_dur(-26, false, 3_600 * 3),
        "-2 years -2 months -03:00:00"
    );
    assert_eq!(
        &mon_dur(-26, false, 60 * 45 + 6),
        "-2 years -2 months -00:45:06"
    );
    assert_eq!(
        &mon_dur(-26, false, 60 * 45),
        "-2 years -2 months -00:45:00"
    );
    assert_eq!(&mon_dur(-26, false, 6), "-2 years -2 months -00:00:06");
}

#[test]
fn test_interval_value_truncate_low_fields() {
    let mut test_cases = [
        (Year, None, (321, 654_321, 321_000_000), (26 * 12, 0, 0)),
        (Month, None, (321, 654_321, 321_000_000), (321, 0, 0)),
        (
            Day,
            None,
            (321, 654_321, 321_000_000),
            (321, 7 * 60 * 60 * 24, 0), // months: 321, duration: 604800s, is_positive_dur: true
        ),
        (
            Hour,
            None,
            (321, 654_321, 321_000_000),
            (321, 181 * 60 * 60, 0),
        ),
        (
            Minute,
            None,
            (321, 654_321, 321_000_000),
            (321, 10905 * 60, 0),
        ),
        (
            Second,
            None,
            (321, 654_321, 321_000_000),
            (321, 654_321, 321_000_000),
        ),
        (
            Second,
            Some(1),
            (321, 654_321, 321_000_000),
            (321, 654_321, 300_000_000),
        ),
        (
            Second,
            Some(0),
            (321, 654_321, 321_000_000),
            (321, 654_321, 0),
        ),
    ];

    for test in test_cases.iter_mut() {
        let mut i = Interval {
            months: (test.2).0,
            duration: Duration::new((test.2).1, (test.2).2),
            is_positive_dur: true,
        };
        let j = Interval {
            months: (test.3).0,
            duration: Duration::new((test.3).1, (test.3).2),
            is_positive_dur: true,
        };

        i.truncate_low_fields(test.0, test.1).unwrap();

        if i != j {
            panic!(
            "test_interval_value_truncate_low_fields failed on {:?} \n actual: {:?} \n expected: {:?}",
            test.0, i, j
        );
        }
    }
}

#[test]
fn test_interval_value_truncate_high_fields() {
    let mut test_cases = [
        (Year, (321, 654_321), (321, 654_321)),
        (Month, (321, 654_321), (9, 654_321)),
        (Day, (321, 654_321), (0, 654_321)),
        (Hour, (321, 654_321), (0, 654_321 % (60 * 60 * 24))),
        (Minute, (321, 654_321), (0, 654_321 % (60 * 60))),
        (Second, (321, 654_321), (0, 654_321 % 60)),
    ];

    for test in test_cases.iter_mut() {
        let mut i = Interval {
            months: (test.1).0,
            duration: Duration::new((test.1).1 as u64, 123),
            is_positive_dur: true,
        };
        let j = Interval {
            months: (test.2).0,
            duration: Duration::new((test.2).1 as u64, 123),
            is_positive_dur: true,
        };

        i.truncate_high_fields(test.0);

        if i != j {
            panic!(
            "test_interval_value_truncate_high_fields failed on {:?} \n actual: {:?} \n expected: {:?}",
            test.0, i, j
        );
        }
    }
}

#[test]
fn interval_fraction_is_trimmed() {
    let text = |secs: u64, nanos: u32, positive: bool| {
        Interval {
            months: 0,
            duration: Duration::new(secs, nanos),
            is_positive_dur: positive,
        }
        .to_string()
    };
    assert_eq!(text(0, 0, true), "00:00:00");
    assert_eq!(text(0, 0, false), "00:00:00");
    assert_eq!(text(68_369, 300_000_000, true), "18:59:29.3");
    assert_eq!(text(1, 1, true), "00:00:01.000000001");
    assert_eq!(text(1, 120_000, false), "-00:00:01.00012");
    assert_eq!(text(0, 999_999_999, true), "00:00:00.999999999");
    assert_eq!(text(360_000, 0, true), "4 days 04:00:00");
    assert_eq!(text(86_400, 0, true), "1 day");
    assert_eq!(
        Interval {
            months: -12,
            duration: Duration::new(5 * 86_400 + 68_369, 300_000_000),
            is_positive_dur: true
        }
        .to_string(),
        "-1 year +5 days +18:59:29.3"
    );
    assert_eq!(
        Interval {
            months: 14,
            duration: Duration::new(5 * 86_400 + 3 * 3_600 + 4 * 60, 0),
            is_positive_dur: true
        }
        .to_string(),
        "1 year 2 months 5 days 03:04:00"
    );
    assert_eq!(
        Interval {
            months: i64::MIN,
            duration: Duration::from_secs(0),
            is_positive_dur: true
        }
        .to_string(),
        "-768614336404564650 years -8 months"
    );
}

#[test]
fn interval_parts() {
    let i = Interval {
        months: -40,
        duration: Duration::new(5 * 86_400 + 4 * 3_600 + 3 * 60 + 2, 100_000_000),
        is_positive_dur: false,
    };
    assert_eq!(i.nanoseconds(), -100_000_000);
    assert_eq!(i.whole_years(), -3);
    assert_eq!(i.months_of_year(), -4);
    assert_eq!(i.whole_days(), 5);
    assert_eq!(i.hours_of_day(), 4);
    assert_eq!(i.minutes_of_hour(), 3);
    assert_eq!(i.seconds_of_minute(), 2);
    assert_eq!(i.duration.subsec_micros(), 100_000);
    let p = Interval {
        months: 3,
        duration: Duration::new(7, 5),
        is_positive_dur: true,
    };
    assert_eq!(p.nanoseconds(), 5);
    assert_eq!(Interval::default().nanoseconds(), 0);
    assert_eq!(Interval::default().months, 0);
    assert!(Interval::default().is_positive_dur);
}

#[test]
fn interval_arithmetic() {
    let a = Interval {
        months: 5,
        duration: Duration::new(10, 900_000_000),
        is_positive_dur: true,
    };
    let b = Interval {
        months: -7,
        duration: Duration::new(3, 200_000_000),
        is_positive_dur: false,
    };
    let sum = a.add(b);
    assert_eq!(sum.months, -2);
    assert_eq!(sum.duration, Duration::new(7, 700_000_000));
    assert!(sum.is_positive_dur);
    let sum = b.add(a);
    assert_eq!(sum.duration, Duration::new(7, 700_000_000));
    assert!(sum.is_positive_dur);
    let twice = a.add(a);
    assert_eq!(twice.months, 10);
    assert_eq!(twice.duration, Duration::new(21, 800_000_000));
    let diff = a.sub(b);
    assert_eq!(diff.months, 12);
    assert_eq!(diff.duration, Duration::new(14, 100_000_000));
    assert!(diff.is_positive_dur);
    let neg = a.neg();
    assert_eq!(neg.months, -5);
    assert_eq!(neg.duration, a.duration);
    assert!(!neg.is_positive_dur);
    let zero = a.add(a.neg());
    assert_eq!(zero.months, 0);
    assert_eq!(zero.duration, Duration::from_secs(0));
    assert!(!zero.is_positive_dur);
}

#[test]
fn duration_carries_nanoseconds() {
    let d = Duration::new(1, 2_500_000_000);
    assert_eq!(d.as_secs(), 3);
    assert_eq!(d.subsec_nanos(), 500_000_000);
    assert_eq!(Duration::from_secs(4).as_secs(), 4);
    assert_eq!(Duration::from_secs(4).subsec_nanos(), 0);
    assert!(Duration::new(1, 1).longer_than(&Duration::new(1, 0)));
    assert!(!Duration::new(1, 0).longer_than(&Duration::new(1, 0)));
    assert_eq!(
        Duration::new(1, 600_000_000).add(Duration::new(1, 600_000_000)),
        Duration::new(3, 200_000_000)
    );
    assert_eq!(
        Duration::new(u64::MAX, 1).add(Duration::new(0, 999_999_998)),
        Duration::new(u64::MAX, 999_999_999)
    );
    assert_eq!(
        Duration::new(2, 100_000_000).sub(Duration::new(1, 600_000_000)),
        Duration::new(0, 500_000_000)
    );
    assert_eq!(
        Duration::new(2, 1).sub(Duration::new(2, 1)),
        Duration::from_secs(0)
    );
}

#[test]
fn truncate_low_fields_rounds_and_refuses() {
    let mut i = Interval {
        months: -17,
        duration: Duration::new(59, 999_999_500),
        is_positive_dur: true,
    };
    i.truncate_low_fields(DateTimeField::Second, None).unwrap();
    assert_eq!(i.duration, Duration::new(60, 0));
    assert_eq!(i.months, -17);

    let mut i = Interval {
        months: -17,
        duration: Duration::new(59, 123_456_499),
        is_positive_dur: true,
    };
    i.truncate_low_fields(DateTimeField::Second, Some(6)).unwrap();
    assert_eq!(i.duration, Duration::new(59, 123_456_000));
    i.truncate_low_fields(DateTimeField::Second, Some(2)).unwrap();
    assert_eq!(i.duration, Duration::new(59, 120_000_000));
    i.truncate_low_fields(DateTimeField::Second, Some(0)).unwrap();
    assert_eq!(i.duration, Duration::new(59, 0));

    let mut i = Interval {
        months: -17,
        duration: Duration::new(59, 500_000_000),
        is_positive_dur: true,
    };
    assert_eq!(
        i.truncate_low_fields(DateTimeField::Second, Some(7)),
        Err("SECOND precision must be (0, 6), have SECOND(7)".to_string())
    );
    assert_eq!(i.duration, Duration::new(59, 500_000_000));
    // The precision is looked at for seconds alone.
    i.truncate_low_fields(DateTimeField::Minute, Some(7)).unwrap();
    assert_eq!(i.duration, Duration::new(0, 0));

    let mut i = Interval {
        months: -17,
        duration: Duration::new(59, 500_000_000),
        is_positive_dur: true,
    };
    i.truncate_low_fields(DateTimeField::Year, None).unwrap();
    assert_eq!(i.months, -12);
    assert_eq!(i.duration, Duration::new(0, 0));

    let mut i = Interval {
        months: -17,
        duration: Duration::new(100_000, 5),
        is_positive_dur: false,
    };
    i.truncate_high_fields(DateTimeField::Month);
    assert_eq!(i.months, -5);
    i.truncate_high_fields(DateTimeField::Minute);
    assert_eq!(i.months, 0);
    assert_eq!(i.duration, Duration::new(100_000 % 3_600, 5));
    assert!(!i.is_positive_dur);
}

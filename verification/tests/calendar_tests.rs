use forecasts::calendar::{Calendar, FreeDateRange, TeamCalendar};
use forecasts::date::{Date, Weekday};

fn on_date(year: i32, month: u32, day: u32) -> Date {
    Date::from_ymd(year, month, day).unwrap()
}

#[test]
fn a_default_team_calendar_has_capacity_1_on_weekdays_and_0_on_weekends() {
    let test_cases = vec![
        (on_date(2026, 2, 16), 1u64), // Monday
        (on_date(2026, 2, 17), 1),    // Tuesday
        (on_date(2026, 2, 18), 1),    // Wednesday
        (on_date(2026, 2, 19), 1),    // Thursday
        (on_date(2026, 2, 20), 1),    // Friday
        (on_date(2026, 2, 21), 0),    // Saturday
        (on_date(2026, 2, 22), 0),    // Sunday
    ];

    let team_calendar = TeamCalendar::new();

    for (date, expected_num) in test_cases {
        let capacity = team_calendar.get_capacity(date);
        assert!(
            capacity.num == expected_num && capacity.den == 1,
            "Expected capacity of {} on {}, but got {}/{}",
            expected_num,
            date.day,
            capacity.num,
            capacity.den
        );
    }
}

#[test]
fn a_team_calendar_with_one_calendar_returns_capacity_correctly() {
    let mut team_calendar = TeamCalendar::new();
    let calendar = Calendar {
        free_weekdays: vec![Weekday::Mon, Weekday::Tue],
        free_date_ranges: vec![
            FreeDateRange {
                start_date: on_date(2026, 2, 16),
                end_date: on_date(2026, 2, 20),
            },
            FreeDateRange {
                start_date: on_date(2026, 2, 27),
                end_date: on_date(2026, 2, 27),
            },
        ],
    };
    team_calendar.calendars.push(calendar);

    let test_cases = vec![
        (on_date(2026, 2, 15), 1u64), // Sunday before the range
        (on_date(2026, 2, 16), 0),    // Monday
        (on_date(2026, 2, 17), 0),    // Tuesday
        (on_date(2026, 2, 18), 0),    // Wednesday
        (on_date(2026, 2, 19), 0),    // Thursday
        (on_date(2026, 2, 20), 0),    // Friday
        (on_date(2026, 2, 21), 1),    // Saturday
        (on_date(2026, 2, 22), 1),    // Sunday
        (on_date(2026, 2, 23), 0),    // Monday
        (on_date(2026, 2, 24), 0),    // Tuesday
        (on_date(2026, 2, 25), 1),    // Wednesday
        (on_date(2026, 2, 26), 1),    // Thursday
        (on_date(2026, 2, 27), 0),    // Friday
        (on_date(2026, 2, 28), 1),    // Saturday
        (on_date(2026, 3, 1), 1),     // Sunday
    ];

    for (date, expected_num) in test_cases {
        let capacity = team_calendar.get_capacity(date);
        assert!(
            capacity.num == expected_num && capacity.den == 1,
            "Expected capacity of {} on {}, but got {}/{}",
            expected_num,
            date.day,
            capacity.num,
            capacity.den
        );
    }
}

#[test]
fn three_calendars_are_combined_correctly() {
    let mut team_calendar = TeamCalendar::new();

    let calendar1 = Calendar {
        free_weekdays: vec![Weekday::Tue, Weekday::Wed, Weekday::Thu],
        free_date_ranges: vec![],
    };
    team_calendar.calendars.push(calendar1);

    let calendar2 = Calendar {
        free_weekdays: vec![Weekday::Wed, Weekday::Thu],
        free_date_ranges: vec![],
    };
    team_calendar.calendars.push(calendar2);

    let calendar3 = Calendar {
        free_weekdays: vec![],
        free_date_ranges: vec![FreeDateRange {
            start_date: on_date(2026, 2, 19),
            end_date: on_date(2026, 2, 20),
        }],
    };
    team_calendar.calendars.push(calendar3);

    // expected capacity as a fraction num/3
    let test_cases = vec![
        (on_date(2026, 2, 16), 3u64), // Monday: 3/3
        (on_date(2026, 2, 17), 2),    // Tuesday: 2/3
        (on_date(2026, 2, 18), 1),    // Wednesday: 1/3
        (on_date(2026, 2, 19), 0),    // Thursday: 0/3
        (on_date(2026, 2, 20), 2),    // Friday: 2/3
        (on_date(2026, 2, 21), 3),    // Saturday: 3/3
        (on_date(2026, 2, 22), 3),    // Sunday: 3/3
    ];

    for (date, expected_num) in test_cases {
        let capacity = team_calendar.get_capacity(date);
        assert!(
            capacity.num == expected_num && capacity.den == 3,
            "Expected capacity of {}/3 on {}, but got {}/{}",
            expected_num,
            date.day,
            capacity.num,
            capacity.den
        );
    }
}

#[test]
fn weekdays_follow_the_day_number() {
    assert!(matches!(on_date(2026, 2, 16).weekday(), Weekday::Mon));
    assert!(matches!(on_date(2026, 2, 21).weekday(), Weekday::Sat));
    assert!(matches!(on_date(2026, 2, 22).weekday(), Weekday::Sun));
    assert!(matches!(on_date(2015, 9, 8).weekday(), Weekday::Tue));
}

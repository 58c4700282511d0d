use trust_list::timestamp::Timestamp;

fn on(year: i32, month: u32, day: u32) -> Timestamp {
    Timestamp {
        year,
        month,
        day,
        hour: 0,
        minute: 0,
        second: 0,
        nanosecond: 0,
    }
}

#[test]
fn default_is_the_first_instant_of_1970() {
    assert_eq!(on(1970, 1, 1), Timestamp::default());
    assert_eq!("01/01/1970", Timestamp::default().date());
    assert_eq!(
        Some(Timestamp::default()),
        Timestamp::parse("1970-01-01T00:00:00Z")
    );
}

#[test]
fn reads_the_form_of_rfc_3339() {
    assert_eq!(
        Some(Timestamp {
            year: 2025,
            month: 5,
            day: 15,
            hour: 13,
            minute: 17,
            second: 5,
            nanosecond: 242_665_000,
        }),
        Timestamp::parse("2025-05-15T13:17:05.242665Z")
    );
    assert_eq!(
        Timestamp::parse("2025-05-15T13:17:05.242665Z"),
        Timestamp::parse("2025-05-15 13:17:05.242665+00:00")
    );
}

#[test]
fn reading_moves_the_time_to_utc() {
    assert_eq!(
        Some(Timestamp {
            year: 2024,
            month: 12,
            day: 31,
            hour: 23,
            minute: 30,
            second: 0,
            nanosecond: 0,
        }),
        Timestamp::parse("2025-01-01T01:30:00+02:00")
    );
    assert_eq!(
        "29/02/2024",
        Timestamp::parse("2024-02-28T20:00:00-05:00").unwrap().date()
    );
}

#[test]
fn what_is_no_date_and_time_is_not_read() {
    for text in [
        "",
        "yesterday",
        "2025-05-15",
        "13:17:05Z",
        "2025-05-15T13:17:05",
        "2025-13-01T00:00:00Z",
        "2025-02-30T00:00:00Z",
        "2025-05-15T25:00:00Z",
        "1751373904",
        "2025-05-15T13:17:05Z trailing",
    ] {
        assert_eq!(None, Timestamp::parse(text), "{text:?}");
    }
}

#[test]
fn date_is_day_month_and_year() {
    assert_eq!("15/05/2025", on(2025, 5, 15).date());
    assert_eq!("01/07/2025", on(2025, 7, 1).date());
    assert_eq!("31/12/1999", on(1999, 12, 31).date());
    assert_eq!("09/10/0987", on(987, 10, 9).date());
    assert_eq!("01/01/0001", on(1, 1, 1).date());
    assert_eq!("01/01/0000", on(0, 1, 1).date());
    assert_eq!("01/01/9999", on(9999, 1, 1).date());
}

#[test]
fn years_outside_four_digits_carry_a_sign() {
    assert_eq!("01/01/+10000", on(10000, 1, 1).date());
    assert_eq!("31/12/+262142", on(262142, 12, 31).date());
    assert_eq!("01/01/-0001", on(-1, 1, 1).date());
    assert_eq!("01/01/-0044", on(-44, 1, 1).date());
    assert_eq!("01/01/-12345", on(-12345, 1, 1).date());
    assert_eq!("01/01/-2147483648", on(i32::MIN, 1, 1).date());
    assert_eq!("01/01/+2147483647", on(i32::MAX, 1, 1).date());
}

#[test]
fn date_is_appended_to_what_is_there() {
    let mut text = "|".to_string();
    on(2025, 5, 15).push_date(&mut text);
    assert_eq!("|15/05/2025", text);
}

use paper_clock::calendar::{
    counter_from_datetime, datetime_from_counter, format_counter, move_months, CivilDate,
    CivilDateTime,
};

fn at(year: i32, month: u32, day: u32, hour: u32, minute: u32) -> CivilDateTime {
    CivilDateTime { date: CivilDate { year, month, day }, hour, minute }
}

fn counter_at(year: i32, month: u32, day: u32, hour: u32, minute: u32) -> u32 {
    counter_from_datetime(at(year, month, day, hour, minute))
}

#[test]
fn epoch_is_counter_zero() {
    assert_eq!(datetime_from_counter(0), at(1970, 1, 1, 0, 0));
    assert_eq!(counter_at(1970, 1, 1, 0, 0), 0);
}

#[test]
fn counter_and_datetime_convert_both_ways() {
    assert_eq!(counter_at(2024, 1, 31, 23, 59), 28_445_759);
    assert_eq!(datetime_from_counter(28_445_759), at(2024, 1, 31, 23, 59));
    assert_eq!(datetime_from_counter(28_445_760), at(2024, 2, 1, 0, 0));
    let top = datetime_from_counter(u32::MAX);
    assert_eq!(counter_from_datetime(top), u32::MAX);
    assert_eq!((top.hour, top.minute), (4, 15));
}

#[test]
fn counter_from_datetime_clamps_to_the_counter_range() {
    assert_eq!(counter_at(1969, 12, 31, 23, 59), 0);
    assert_eq!(counter_at(1900, 6, 1, 12, 0), 0);
    assert_eq!(counter_at(10200, 1, 1, 0, 0), u32::MAX);
}

#[test]
fn month_moves_clamp_the_day() {
    let jan31 = counter_at(2024, 1, 31, 10, 0);
    assert_eq!(datetime_from_counter(move_months(jan31, 1, true)), at(2024, 2, 29, 10, 0));
    let leap_day = counter_at(2024, 2, 29, 7, 30);
    assert_eq!(datetime_from_counter(move_months(leap_day, 12, true)), at(2025, 2, 28, 7, 30));
    assert_eq!(datetime_from_counter(move_months(leap_day, 12, false)), at(2023, 2, 28, 7, 30));
    let mar31 = counter_at(2023, 3, 31, 0, 1);
    assert_eq!(datetime_from_counter(move_months(mar31, 1, false)), at(2023, 2, 28, 0, 1));
    let dec15 = counter_at(2023, 12, 15, 8, 0);
    assert_eq!(datetime_from_counter(move_months(dec15, 1, true)), at(2024, 1, 15, 8, 0));
}

#[test]
fn month_moves_before_the_epoch_clamp_to_zero() {
    let jan15 = counter_at(1970, 1, 15, 0, 0);
    assert_eq!(move_months(jan15, 1, false), 0);
}

#[test]
fn formats_render_the_calendar_fields() {
    let t = counter_at(2024, 2, 1, 9, 5);
    assert_eq!(format_counter(t, "%Y").unwrap(), "2024");
    assert_eq!(format_counter(t, "%m").unwrap(), "02");
    assert_eq!(format_counter(t, "%d").unwrap(), "01");
    assert_eq!(format_counter(t, "%H:%M").unwrap(), "09:05");
    assert_eq!(format_counter(t, "%-d.%-m.%Y").unwrap(), "1.2.2024");
    assert_eq!(format_counter(t, "Save").unwrap(), "Save");
    assert_eq!(format_counter(t, "%"), None);
}

use terramenta::calendar::civil_from_days;

#[test]
fn the_epoch_day_is_new_year_2000() {
    assert_eq!(civil_from_days(0), (2000, 1, 1));
    assert_eq!(civil_from_days(-1), (1999, 12, 31));
    assert_eq!(civil_from_days(-10_957), (1970, 1, 1));
}

#[test]
fn leap_days_come_where_the_calendar_puts_them() {
    // 2000 is divisible by 400, so it has a 29th of February.
    assert_eq!(civil_from_days(59), (2000, 2, 29));
    assert_eq!(civil_from_days(60), (2000, 3, 1));
    // 2100 is divisible by 100 and not by 400, so it has none.
    let march_2100 = 36_584;
    assert_eq!(civil_from_days(march_2100 - 1), (2100, 2, 28));
    assert_eq!(civil_from_days(march_2100), (2100, 3, 1));
}

#[test]
fn a_mission_a_year_out_lands_on_the_right_day() {
    // 2026-09-16, the day the test catalogue's elements are from.
    assert_eq!(civil_from_days(9_755), (2026, 9, 16));
    // Far before the era began, and far after.
    assert_eq!(civil_from_days(-730_485), (0, 1, 1));
    assert_eq!(civil_from_days(2_921_939), (9999, 12, 31));
}

use exchange_gateway::error::GatewayError;
use exchange_gateway::rrule_engine::{expand_rrule, in_years, select_in_range};

const JAN_1_2024_9H: i64 = 1704099600;
const DAY: i64 = 86400;

#[test]
fn unbounded_daily_rule_over_one_year() {
    let start = JAN_1_2024_9H;
    let end = 1735689599; // 2024-12-31T23:59:59Z
    let got = expand_rrule(JAN_1_2024_9H, "FREQ=DAILY", start, end).unwrap();
    assert_eq!(got.len(), 366);
    assert_eq!(got[0], JAN_1_2024_9H);
    assert_eq!(got[365], JAN_1_2024_9H + 365 * DAY);
    for w in got.windows(2) {
        assert!(w[0] < w[1]);
    }
    for t in &got {
        assert!(start <= *t && *t <= end);
    }
}

#[test]
fn counted_rule_and_inclusive_range() {
    let got = expand_rrule(JAN_1_2024_9H, "FREQ=DAILY;COUNT=3", 0, JAN_1_2024_9H + 10 * DAY).unwrap();
    assert_eq!(got, vec![JAN_1_2024_9H, JAN_1_2024_9H + DAY, JAN_1_2024_9H + 2 * DAY]);
    // Both ends of the range are included.
    let got = expand_rrule(
        JAN_1_2024_9H,
        "FREQ=DAILY;COUNT=5",
        JAN_1_2024_9H + DAY,
        JAN_1_2024_9H + 3 * DAY,
    )
    .unwrap();
    assert_eq!(got, vec![JAN_1_2024_9H + DAY, JAN_1_2024_9H + 2 * DAY, JAN_1_2024_9H + 3 * DAY]);
}

#[test]
fn range_before_the_anchor_is_empty() {
    let got = expand_rrule(JAN_1_2024_9H, "FREQ=WEEKLY", 0, JAN_1_2024_9H - 1).unwrap();
    assert_eq!(got, Vec::<i64>::new());
}

#[test]
fn unparsable_rule_is_a_rule_error() {
    assert_eq!(expand_rrule(JAN_1_2024_9H, "not a rule", 0, JAN_1_2024_9H), Err(GatewayError::Rule));
    assert_eq!(expand_rrule(JAN_1_2024_9H, "", 0, JAN_1_2024_9H), Err(GatewayError::Rule));
    assert_eq!(expand_rrule(JAN_1_2024_9H, "FREQ=SOMETIMES", 0, JAN_1_2024_9H), Err(GatewayError::Rule));
}

#[test]
fn instant_outside_the_calendar_is_a_rule_error() {
    assert_eq!(expand_rrule(i64::MAX, "FREQ=DAILY", 0, 10), Err(GatewayError::Rule));
    assert_eq!(expand_rrule(0, "FREQ=DAILY", 0, i64::MAX), Err(GatewayError::Rule));
    assert_eq!(expand_rrule(0, "FREQ=DAILY", i64::MIN, 10), Err(GatewayError::Rule));
    // Outside the years 1 to 9999 no rule is expanded.
    assert_eq!(expand_rrule(-62_135_596_801, "FREQ=YEARLY;BYWEEKNO=2", -62_135_596_801, 0), Err(GatewayError::Rule));
    assert_eq!(expand_rrule(0, "FREQ=DAILY", 0, 253_402_300_800), Err(GatewayError::Rule));
    assert_eq!(expand_rrule(0, "FREQ=DAILY", -62_135_596_801, 10), Err(GatewayError::Rule));
    assert!(in_years(-62_135_596_800) && in_years(253_402_300_799));
    assert!(!in_years(-62_135_596_801) && !in_years(253_402_300_800));
    // At the edges of those years rules are still expanded.
    assert_eq!(
        expand_rrule(-62_135_596_800, "FREQ=YEARLY;BYWEEKNO=2;COUNT=1", -62_135_596_800, 0).map(|v| v.len()),
        Ok(1)
    );
    assert_eq!(
        expand_rrule(253_402_300_799 - 86_400, "FREQ=DAILY", 0, 253_402_300_799),
        Ok(vec![253_402_300_799 - 86_400, 253_402_300_799])
    );
}

#[test]
fn selection_sorts_and_removes_duplicates() {
    assert_eq!(select_in_range(&vec![5, 1, 9, 5, 3, 1, 12, -4], 1, 9), vec![1, 3, 5, 9]);
    assert_eq!(select_in_range(&vec![], 0, 10), Vec::<i64>::new());
    assert_eq!(select_in_range(&vec![3, 2, 1], 5, 4), Vec::<i64>::new());
    assert_eq!(select_in_range(&vec![i64::MIN, i64::MAX, 0], i64::MIN, i64::MAX), vec![i64::MIN, 0, i64::MAX]);
}

#[test]
fn window_far_behind_the_anchor_is_reached() {
    // Anchored in 1970, asked for one day in 2024.
    let got = expand_rrule(9 * 3600, "FREQ=HOURLY", JAN_1_2024_9H, JAN_1_2024_9H + 3 * 3600).unwrap();
    assert_eq!(
        got,
        vec![JAN_1_2024_9H, JAN_1_2024_9H + 3600, JAN_1_2024_9H + 2 * 3600, JAN_1_2024_9H + 3 * 3600]
    );
}

#[test]
fn dense_rules_are_expanded_in_full() {
    // One day holds 86400 seconds; both ends of the range count.
    let got = expand_rrule(JAN_1_2024_9H, "FREQ=SECONDLY", JAN_1_2024_9H, JAN_1_2024_9H + DAY).unwrap();
    assert_eq!(got.len(), 86_401);
    assert_eq!(got[0], JAN_1_2024_9H);
    assert_eq!(got[86_400], JAN_1_2024_9H + DAY);
    for w in got.windows(2) {
        assert_eq!(w[0] + 1, w[1]);
    }
    // Every minute of ten weeks.
    let got = expand_rrule(JAN_1_2024_9H, "FREQ=MINUTELY", JAN_1_2024_9H, JAN_1_2024_9H + 70 * DAY - 1).unwrap();
    assert_eq!(got.len(), 70 * 24 * 60);
}

#[test]
fn rule_that_never_recurs_gives_nothing() {
    assert_eq!(
        expand_rrule(JAN_1_2024_9H, "FREQ=YEARLY;BYMONTH=2;BYMONTHDAY=30", JAN_1_2024_9H, JAN_1_2024_9H + 3660 * DAY),
        Ok(vec![])
    );
}

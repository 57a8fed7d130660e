use hindsight::clock::Instant;
use hindsight::off_pc::{
    check_local_date, gap_seconds, group_member_action, manual_group_action, off_pc_gap_window,
    plan_off_pc_record, recordable_gaps_from_rows, supercategory_action, OffPcError, OffPcGap,
    UpsertAction,
};

fn at(text: &str) -> Instant {
    let t = chrono::DateTime::parse_from_rfc3339(text).unwrap();
    Instant { secs: t.timestamp(), nanos: t.timestamp_subsec_nanos() }
}

fn rows(items: &[(&str, &str)]) -> Vec<(String, String)> {
    items.iter().map(|(a, b)| (a.to_string(), b.to_string())).collect()
}

fn gap(from: &str, to: &str) -> OffPcGap {
    OffPcGap { from: from.into(), to: to.into() }
}

const DAY_START: &str = "2026-09-20T00:00:00+00:00";
const DAY_END: &str = "2026-09-21T00:00:00+00:00";

#[test]
fn gaps_start_at_first_activity_and_run_to_cutoff() {
    let gaps = recordable_gaps_from_rows(
        &rows(&[("2026-09-20T10:00:00+00:00", "2026-09-20T11:00:00+00:00")]),
        at(DAY_START),
        at(DAY_END),
    );
    assert_eq!(gaps, vec![gap("2026-09-20T11:00:00+00:00", "2026-09-21T00:00:00+00:00")]);
    assert!(recordable_gaps_from_rows(&rows(&[]), at(DAY_START), at(DAY_END)).is_empty());
}

#[test]
fn overlapping_coverage_merges_and_offsets_convert_to_utc() {
    let gaps = recordable_gaps_from_rows(
        &rows(&[
            ("2026-09-20T13:00:00+00:00", "2026-09-20T14:00:00+00:00"),
            ("2026-09-20T19:00:00+09:00", "2026-09-20T11:00:00+00:00"),
            ("2026-09-20T10:30:00+00:00", "2026-09-20T12:00:00+00:00"),
            ("not a time", "2026-09-20T23:00:00+00:00"),
        ]),
        at(DAY_START),
        at(DAY_END),
    );
    assert_eq!(
        gaps,
        vec![
            gap("2026-09-20T12:00:00+00:00", "2026-09-20T13:00:00+00:00"),
            gap("2026-09-20T14:00:00+00:00", "2026-09-21T00:00:00+00:00"),
        ]
    );
}

#[test]
fn gaps_stop_at_cutoff_and_count_activity_from_the_previous_day() {
    let gaps = recordable_gaps_from_rows(
        &rows(&[
            ("2026-09-19T23:50:00+00:00", "2026-09-20T00:10:00+00:00"),
            ("2026-09-20T08:00:00+00:00", "2026-09-20T09:30:00+00:00"),
        ]),
        at(DAY_START),
        at("2026-09-20T09:00:00.700+00:00"),
    );
    assert_eq!(gaps, vec![gap("2026-09-20T00:10:00+00:00", "2026-09-20T08:00:00+00:00")]);
}

#[test]
fn gap_after_fractional_zero_length_activity_is_whole_seconds() {
    let gaps = recordable_gaps_from_rows(
        &rows(&[("2026-09-20T10:00:00.250+00:00", "2026-09-20T10:00:00.250+00:00")]),
        at(DAY_START),
        at("2026-09-20T10:05:00.900+00:00"),
    );
    assert_eq!(gaps, vec![gap("2026-09-20T10:00:01+00:00", "2026-09-20T10:05:00+00:00")]);
    let secs = gap_seconds(
        &vec![(at("2026-09-20T10:00:00.250+00:00"), at("2026-09-20T10:00:00.250+00:00"))],
        at(DAY_START),
        at("2026-09-20T10:00:00.900+00:00"),
    );
    assert!(secs.is_empty());
}

#[test]
fn window_refuses_other_devices_and_future_dates() {
    let start = at(DAY_START);
    let end = at(DAY_END);
    let now = at("2026-09-20T15:00:00+00:00");
    assert_eq!(
        off_pc_gap_window("remote-device", "self", 10, 10, start, end, now),
        Err(OffPcError::GapsWrongDevice)
    );
    assert_eq!(
        OffPcError::GapsWrongDevice.message(),
        "off-PC gaps must target the current device"
    );
    assert_eq!(off_pc_gap_window("self", "self", 11, 10, start, end, now), Ok(None));
    assert_eq!(off_pc_gap_window("self", "self", 10, 10, start, end, now), Ok(Some((start, now))));
    assert_eq!(off_pc_gap_window("self", "self", 9, 10, start, end, now), Ok(Some((start, end))));
    assert_eq!(off_pc_gap_window("self", "self", 10, 10, start, end, start), Ok(None));
}

#[test]
fn plan_keeps_exact_duration_and_utc_ends() {
    let now = at("2026-09-21T00:00:00+00:00");
    let draft = plan_off_pc_record(
        "self",
        "self",
        "2026-09-20T10:00:00+09:00",
        "2026-09-20T11:00:00+09:00",
        "meeting",
        "  planning meeting  ",
        now,
    )
    .unwrap();
    assert_eq!(draft.duration_secs, 3600);
    assert_eq!(draft.started_at, "2026-09-20T01:00:00+00:00");
    assert_eq!(draft.ended_at, "2026-09-20T02:00:00+00:00");
    assert_eq!(draft.process_name, "off_pc::meeting");
    assert_eq!(draft.label, "Meeting");
    assert_eq!(draft.detail, "planning meeting");
    assert_eq!(draft.start, at("2026-09-20T01:00:00Z"));
    let trip = plan_off_pc_record("self", "self", DAY_START, "2026-09-20T01:00:00Z", "business_trip", "x", now)
        .unwrap();
    assert_eq!(trip.label, "Business trip");
    let exam = plan_off_pc_record("self", "self", DAY_START, "2026-09-20T01:00:00Z", "exam", "x", now)
        .unwrap();
    assert_eq!(exam.label, "Satellite module functional test");
}

#[test]
fn rejects_bad_requests_in_order() {
    let now = at("2026-09-21T00:00:00+00:00");
    let plan = |device: &str, from: &str, to: &str, kind: &str, detail: &str| {
        plan_off_pc_record(device, "self", from, to, kind, detail, now).unwrap_err()
    };
    let (from, to) = ("2026-09-20T10:00:00Z", "2026-09-20T11:00:00Z");
    assert_eq!(plan("other-device", from, to, "meeting", "x"), OffPcError::RecordWrongDevice);
    assert_eq!(plan("self", from, to, "lunch", "x"), OffPcError::UnsupportedType);
    assert_eq!(plan("self", from, to, "meeting", "   "), OffPcError::EmptyDetail);
    assert_eq!(plan("self", "10:00", to, "meeting", "x"), OffPcError::InvalidStart);
    assert_eq!(plan("self", from, "11:00", "meeting", "x"), OffPcError::InvalidEnd);
    assert_eq!(plan("self", from, from, "meeting", "x"), OffPcError::EmptyInterval);
    assert_eq!(plan("self", to, from, "meeting", "x"), OffPcError::EmptyInterval);
    assert_eq!(
        plan("self", from, "2026-09-20T10:00:01.500Z", "meeting", "x"),
        OffPcError::EmptyInterval
    );
    assert_eq!(
        plan("self", "2026-09-20T23:00:00Z", "2026-09-21T00:05:00Z", "meeting", "future"),
        OffPcError::FutureInterval
    );
    assert_eq!(
        OffPcError::FutureInterval.message(),
        "off-PC interval must not be in the future"
    );
    assert_eq!(
        OffPcError::Overlaps.message(),
        "off-PC interval overlaps captured activity"
    );
    assert_eq!(
        OffPcError::CrossesDate.message(),
        "off-PC interval must stay within one local calendar date"
    );
}

#[test]
fn local_date_check_rejects_crossing_and_keeps_midnight_end() {
    let now = at("2026-09-22T00:00:00+00:00");
    let draft = plan_off_pc_record(
        "self",
        "self",
        "2026-09-20T23:00:00Z",
        "2026-09-21T01:00:00Z",
        "meeting",
        "crosses date",
        now,
    )
    .unwrap();
    assert_eq!(check_local_date(draft, 20, 21), Err(OffPcError::CrossesDate));
    let midnight = plan_off_pc_record(
        "self",
        "self",
        "2026-09-20T23:00:00Z",
        "2026-09-21T00:00:00Z",
        "business_trip",
        "ends at midnight",
        now,
    )
    .unwrap();
    let kept = check_local_date(midnight.clone(), 20, 20).unwrap();
    assert_eq!(kept, midnight);
    assert_eq!(kept.duration_secs, 3600);
}

#[test]
fn upkeep_keeps_matching_rows_and_repairs_others() {
    assert_eq!(supercategory_action(&None), UpsertAction::Insert);
    let current = Some(("PC 외 업무".to_string(), "#94a3b8".to_string(), "Briefcase".to_string(), false));
    assert_eq!(supercategory_action(&current), UpsertAction::Keep);
    let renamed = Some(("Other".to_string(), "#94a3b8".to_string(), "Briefcase".to_string(), false));
    assert_eq!(supercategory_action(&renamed), UpsertAction::Update);
    let deleted = Some(("PC 외 업무".to_string(), "#94a3b8".to_string(), "Briefcase".to_string(), true));
    assert_eq!(supercategory_action(&deleted), UpsertAction::Update);

    let group = Some(("Meeting".to_string(), Some("cat-1".to_string()), false));
    assert_eq!(manual_group_action(&group, "Meeting", "cat-1"), UpsertAction::Keep);
    assert_eq!(manual_group_action(&group, "Meeting", "cat-2"), UpsertAction::Update);
    assert_eq!(
        manual_group_action(&Some(("Meeting".to_string(), None, false)), "Meeting", "cat-1"),
        UpsertAction::Update
    );
    assert_eq!(manual_group_action(&None, "Meeting", "cat-1"), UpsertAction::Insert);

    let member = Some(("off_pc::meeting".to_string(), false));
    assert_eq!(group_member_action(&member, "off_pc::meeting"), UpsertAction::Keep);
    assert_eq!(
        group_member_action(&Some(("other".to_string(), false)), "off_pc::meeting"),
        UpsertAction::Update
    );
    assert_eq!(
        group_member_action(&Some(("off_pc::meeting".to_string(), true)), "off_pc::meeting"),
        UpsertAction::Update
    );
    assert_eq!(group_member_action(&None, "off_pc::meeting"), UpsertAction::Insert);
}

#[test]
fn a_reported_gap_can_be_recorded() {
    let gaps = recordable_gaps_from_rows(
        &rows(&[("2026-09-20T10:00:00.250+00:00", "2026-09-20T10:00:00.250+00:00")]),
        at(DAY_START),
        at("2026-09-20T10:05:00.900+00:00"),
    );
    assert_eq!(gaps.len(), 1);
    let draft = plan_off_pc_record(
        "self",
        "self",
        &gaps[0].from,
        &gaps[0].to,
        "exam",
        "recorded from certified gap",
        at("2026-09-20T10:05:00.900+00:00"),
    )
    .unwrap();
    assert_eq!(draft.duration_secs, 299);
    assert_eq!(draft.started_at, gaps[0].from);
    assert_eq!(draft.ended_at, gaps[0].to);
}

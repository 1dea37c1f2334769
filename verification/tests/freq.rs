use bot_rs::basics::Duration;
use bot_rs::freq::{hourly_counts, lookback_days, series_label, MessageCount};

#[test]
fn periods_reach_back_by_days() {
    assert_eq!(lookback_days(Some(Duration::Day)), Some(1));
    assert_eq!(lookback_days(Some(Duration::Week)), Some(7));
    assert_eq!(lookback_days(Some(Duration::Month)), Some(30));
    assert_eq!(lookback_days(Some(Duration::Quarter)), Some(90));
    assert_eq!(lookback_days(Some(Duration::Year)), Some(365));
    assert_eq!(lookback_days(Some(Duration::Invalid)), None);
    assert_eq!(lookback_days(None), None);
}

#[test]
fn series_labels_fall_back_in_order() {
    let mut row = MessageCount { group_id: -100, ..Default::default() };
    assert_eq!(series_label(&row), "-100");
    row.group_username = Some("grp".to_owned());
    assert_eq!(series_label(&row), "grp");
    row.group_name = Some("Group".to_owned());
    assert_eq!(series_label(&row), "Group");
    row.user_id = Some(42);
    assert_eq!(series_label(&row), "42");
    row.username = Some("alice".to_owned());
    assert_eq!(series_label(&row), "alice");
}

#[test]
fn hourly_counts_group_by_label_and_hour() {
    let rows = vec![
        MessageCount { username: Some("a".to_owned()), hour_num: 3, count: 5, ..Default::default() },
        MessageCount { group_id: 9, hour_num: 3, count: 7, ..Default::default() },
        MessageCount { username: Some("a".to_owned()), hour_num: 4, count: 1, ..Default::default() },
        MessageCount { username: Some("a".to_owned()), hour_num: 3, count: 2, ..Default::default() },
    ];
    let series = hourly_counts(&rows);
    assert_eq!(series.len(), 2);
    assert_eq!(series[0].0, "a");
    assert_eq!(series[0].1, vec![(3u8, 2i64), (4u8, 1i64)]);
    assert_eq!(series[1].0, "9");
    assert_eq!(series[1].1, vec![(3u8, 7i64)]);
    assert!(hourly_counts(&Vec::new()).is_empty());
}

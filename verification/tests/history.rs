use openflow::history::{history_id, legacy_row, retention_cutoff_ms, HistoryEntry, HistoryRow, LegacyHistoryEntry};

#[test]
fn retention_cutoff_zero_is_keep_forever() {
    assert_eq!(retention_cutoff_ms(1_000_000_000, 0), None);
}

#[test]
fn retention_cutoff_subtracts_whole_days() {
    let now = 1_000_000_000_000;
    assert_eq!(retention_cutoff_ms(now, 7), Some(now - 7 * 86_400_000),);
    assert_eq!(retention_cutoff_ms(now, 1), Some(now - 86_400_000));
}

#[test]
fn ids_join_time_and_sequence() {
    assert_eq!(history_id(1718000000000, 3), "1718000000000-3");
    assert_eq!(history_id(0, 0), "0-0");
    assert_eq!(history_id(-5, 12), "-5-12");
}

#[test]
fn legacy_entries_become_rows() {
    let e = LegacyHistoryEntry {
        id: "x".into(),
        raw: "um hello  world".into(),
        text: "Hello world.".into(),
        mode_id: "standard".into(),
        polished: true,
        at: 42,
    };
    let row = legacy_row(&e);
    assert_eq!(row.word_count, 2);
    assert_eq!(row.raw_text, "um hello  world");
    assert_eq!(row.app_name, None);
    assert_eq!(row.duration_ms, None);
    assert!(row.used_ai);
    let entry = HistoryEntry::from(HistoryRow { ..row });
    assert_eq!(entry.id, "x");
    assert_eq!(entry.at, 42);
}

#[test]
fn ids_in_the_same_millisecond_differ() {
    let ids = [
        history_id(1718000000000, 0),
        history_id(1718000000000, 1),
        history_id(1718000000001, 0),
        history_id(-1, 10),
        history_id(-11, 0),
        history_id(i64::MIN, u64::MAX),
    ];
    for (i, a) in ids.iter().enumerate() {
        for b in ids.iter().skip(i + 1) {
            assert_ne!(a, b);
        }
    }
}

use musicsync::clock::{chrono_now_hms, chrono_today_yyyy_mm_dd, days_to_ymd, now_ms, MAX_SECS};
use musicsync::run::SyncReport;
use musicsync::summary::{format_duration, format_sync_summary};

#[test]
fn days_are_dates() {
    assert_eq!(days_to_ymd(0), (1970, 1, 1));
    assert_eq!(days_to_ymd(-1), (1969, 12, 31));
    assert_eq!(days_to_ymd(59), (1970, 3, 1));
    assert_eq!(days_to_ymd(789), (1972, 2, 29));
    assert_eq!(days_to_ymd(11016), (2000, 2, 29));
    assert_eq!(days_to_ymd(19723), (2024, 1, 1));
    // 1900 was no leap year.
    assert_eq!(days_to_ymd(-25509), (1900, 2, 28));
    assert_eq!(days_to_ymd(-25508), (1900, 3, 1));
}

#[test]
fn days_follow_each_other() {
    let mut before = days_to_ymd(-800);
    for days in -799..800i64 {
        let (y, m, d) = days_to_ymd(days);
        let next_day = (before.0, before.1, before.2 + 1);
        let next_month = (before.0, before.1 + 1, 1);
        let next_year = (before.0 + 1, 1, 1);
        assert!((y, m, d) == next_day || (y, m, d) == next_month || (y, m, d) == next_year);
        before = (y, m, d);
    }
}

#[test]
fn times_are_written_with_zeros() {
    assert_eq!(chrono_today_yyyy_mm_dd(0), "1970-01-01");
    assert_eq!(chrono_today_yyyy_mm_dd(1716300000), "2024-05-21");
    assert_eq!(chrono_today_yyyy_mm_dd(MAX_SECS), "2147483647-12-31");
    assert_eq!(chrono_now_hms(0), "00:00:00");
    assert_eq!(chrono_now_hms(86399), "23:59:59");
    assert_eq!(chrono_now_hms(1716300000), "14:00:00");
    assert_eq!(chrono_now_hms(3661), "01:01:01");
}

#[test]
fn milliseconds_are_counted_from_1970() {
    assert_eq!(now_ms(Some((12, 345))), 12345);
    assert_eq!(now_ms(None), 0);
    assert_eq!(now_ms(Some((18446744073709552, 0))), 384);
}

#[test]
fn durations_read_well() {
    assert_eq!(format_duration(0, 7), "7 ms");
    assert_eq!(format_duration(59, 999), "59s");
    assert_eq!(format_duration(60, 0), "1:00");
    assert_eq!(format_duration(754, 0), "12:34");
    assert_eq!(format_duration(3600, 0), "1:00:00");
    assert_eq!(format_duration(45296, 0), "12:34:56");
}

fn report(tracks: usize, playlists: usize, deleted: usize, errors: Vec<String>) -> SyncReport {
    SyncReport {
        uploaded_tracks: tracks,
        uploaded_playlists: playlists,
        already_present: 5,
        deleted_files: deleted,
        errors,
    }
}

#[test]
fn summary_tells_what_was_done() {
    assert_eq!(
        format_sync_summary(&report(1, 2, 3, vec![]), 61, 0),
        "Sync complete in 1:01. \u{b7} Copied 1 track \u{b7} wrote 2 playlists \u{b7} deleted 3 files \u{b7} 5 already present."
    );
    assert_eq!(
        format_sync_summary(&report(0, 0, 0, vec![]), 0, 12),
        "Sync complete in 12 ms. \u{b7} nothing to do \u{2014} 5 tracks already on phone."
    );
    assert_eq!(
        format_sync_summary(&report(2, 0, 0, vec!["A: x".into()]), 2, 0),
        "Sync complete in 2s. \u{b7} Copied 2 tracks \u{b7} 5 already present. 1 error: A: x"
    );
    assert_eq!(
        format_sync_summary(&report(0, 1, 0, vec!["A: x".into(), "B: y".into()]), 2, 0),
        "Sync complete in 2s. \u{b7} wrote 1 playlist \u{b7} 5 already present. 2 errors: A: x; B: y"
    );
}

use ikki::progress::{DownloadProgress, Frame, ProgressDetail, Totals};

fn frame(status: Option<&str>, id: Option<&str>, detail: Option<(Option<i64>, Option<i64>)>) -> Frame {
    Frame {
        status: status.map(String::from),
        id: id.map(String::from),
        progress_detail: detail.map(|(total, current)| ProgressDetail { total, current }),
    }
}

fn download(id: &str, total: i64, current: i64) -> Frame {
    frame(Some("Downloading"), Some(id), Some((Some(total), Some(current))))
}

fn totals(length: u64, position: u64) -> Option<Totals> {
    Some(Totals { length, position })
}

#[test]
fn totals_are_sums_over_the_layers() {
    let mut progress = DownloadProgress::new();
    assert_eq!(progress.totals(), Totals { length: 0, position: 0 });
    assert_eq!(progress.record(&download("a", 100, 10)), totals(100, 10));
    assert_eq!(progress.record(&download("b", 50, 5)), totals(150, 15));
    assert_eq!(progress.record(&download("c", 1, 1)), totals(151, 16));
    assert_eq!(progress.totals(), Totals { length: 151, position: 16 });
}

#[test]
fn latest_current_of_a_layer_counts_and_its_first_total_stays() {
    let mut progress = DownloadProgress::new();
    progress.record(&download("a", 100, 10));
    progress.record(&download("b", 50, 5));
    assert_eq!(progress.record(&download("a", 999, 60)), totals(150, 65));
    assert_eq!(progress.record(&download("a", 100, 30)), totals(150, 35));
    assert_eq!(progress.record(&download("b", 0, 50)), totals(150, 80));
}

#[test]
fn other_frames_change_nothing() {
    let mut progress = DownloadProgress::new();
    progress.record(&download("a", 100, 10));
    let ignored = [
        frame(Some("Extracting"), Some("a"), Some((Some(100), Some(50)))),
        frame(Some("downloading"), Some("a"), Some((Some(100), Some(50)))),
        frame(None, Some("a"), Some((Some(100), Some(50)))),
        frame(Some("Downloading"), Some("a"), None),
        frame(Some("Downloading"), Some("a"), Some((None, Some(50)))),
        frame(Some("Downloading"), Some("a"), Some((Some(100), None))),
        frame(Some("Downloading"), Some("a"), Some((None, None))),
    ];
    for frame in &ignored {
        assert_eq!(progress.record(frame), None);
    }
    assert_eq!(progress.totals(), Totals { length: 100, position: 10 });
}

#[test]
fn frame_without_id_counts_for_the_empty_id() {
    let mut progress = DownloadProgress::new();
    let anonymous = frame(Some("Downloading"), None, Some((Some(10), Some(1))));
    assert_eq!(progress.record(&anonymous), totals(10, 1));
    assert_eq!(progress.record(&download("", 77, 4)), totals(10, 4));
    assert_eq!(progress.record(&download("x", 5, 5)), totals(15, 9));
}

#[test]
fn totals_stay_in_the_range_of_the_indicator() {
    let mut progress = DownloadProgress::new();
    assert_eq!(progress.record(&download("a", -5, -7)), totals(0, 0));
    assert_eq!(progress.record(&download("b", 3, 10)), totals(0, 3));
    let mut large = DownloadProgress::new();
    large.record(&download("a", i64::MAX, i64::MAX));
    large.record(&download("b", i64::MAX, 0));
    assert_eq!(
        large.record(&download("c", 2, 0)),
        totals(u64::MAX, i64::MAX as u64)
    );
    assert_eq!(
        large.record(&download("d", 0, 1)),
        totals(u64::MAX, i64::MAX as u64 + 1)
    );
}

#[test]
fn download_frames_are_told_by_their_status() {
    assert!(DownloadProgress::is_downloading(&download("a", 1, 1)));
    assert!(DownloadProgress::is_downloading(&frame(Some("Downloading"), None, None)));
    assert!(!DownloadProgress::is_downloading(&frame(Some("Download complete"), None, None)));
    assert!(!DownloadProgress::is_downloading(&frame(Some(""), None, None)));
    assert!(!DownloadProgress::is_downloading(&frame(None, None, None)));
}

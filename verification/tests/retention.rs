use wsrx::retention::{
    collect_pcaps, expired_files, retention_cutoff, retention_seconds, retention_start, sum_of_sizes,
    CaptureFile, EntryAction, RetentionSweep,
};

fn file(modified: i128, size: u64) -> CaptureFile {
    CaptureFile { modified, size }
}

fn sweep_all(files: Vec<CaptureFile>, max: u64) -> Vec<usize> {
    let mut sweep = RetentionSweep::new(files, max);
    let mut victims = Vec::new();
    while let Some(victim) = sweep.next_victim() {
        victims.push(victim);
        sweep.victim_removed(true);
    }
    victims
}

#[test]
fn entries_of_a_capture_directory() {
    let metadata = Some((Some(5), 7));
    assert_eq!(collect_pcaps(true, b"a.pcap", metadata), EntryAction::Descend);
    assert_eq!(collect_pcaps(false, b"a.pcap", metadata), EntryAction::Keep(file(5, 7)));
    assert_eq!(collect_pcaps(false, b"..pcap", metadata), EntryAction::Keep(file(5, 7)));
    assert_eq!(collect_pcaps(false, b"a.pcap", Some((None, 7))), EntryAction::Keep(file(0, 7)));
    assert_eq!(collect_pcaps(false, b"a.pcap", None), EntryAction::Skip);
    for name in [&b".pcap"[..], b"pcap", b"a.pcapng", b"a.PCAP", b"a.pcap.1", b"apcap", b""] {
        assert_eq!(collect_pcaps(false, name, metadata), EntryAction::Skip);
    }
}

#[test]
fn length_of_the_retention_period() {
    assert_eq!(retention_seconds(0), 0);
    assert_eq!(retention_seconds(7), 604_800);
    assert_eq!(retention_seconds(u64::MAX), u64::MAX);
    assert_eq!(retention_cutoff(Some(-4)), -4);
    assert_eq!(retention_cutoff(None), 0);
    assert_eq!(retention_start(86_400_000_000_005, 1), Some(5));
    assert_eq!(retention_start(3, 0), Some(3));
    assert_eq!(retention_start(0, u64::MAX), Some(-18_446_744_073_709_551_615_000_000_000));
    assert_eq!(retention_start(i128::MIN, 1), None);
}

#[test]
fn files_are_kept_for_the_retention_period() {
    let day = 86_400_000_000_000;
    let now = 10 * day;
    let files = vec![file(3 * day - 1, 1), file(3 * day, 1), file(9 * day, 1)];
    assert_eq!(expired_files(&files, retention_start(now, 7).unwrap()), vec![0]);
}

#[test]
fn files_before_the_cutoff_expire() {
    let files = vec![file(5, 1), file(10, 1), file(-1, 1), file(11, 1), file(9, 1)];
    assert_eq!(expired_files(&files, 10), vec![0, 2, 4]);
    assert_eq!(expired_files(&files, -1), Vec::<usize>::new());
    assert_eq!(expired_files(&Vec::new(), 10), Vec::<usize>::new());
}

#[test]
fn oldest_files_go_until_the_others_fit() {
    let files = vec![file(30, 4), file(10, 5), file(20, 6), file(10, 7)];
    assert_eq!(sum_of_sizes(&files), Some(22));
    assert_eq!(sweep_all(files.clone(), 22), Vec::<usize>::new());
    assert_eq!(sweep_all(files.clone(), 21), vec![1]);
    assert_eq!(sweep_all(files.clone(), 17), vec![1]);
    assert_eq!(sweep_all(files.clone(), 16), vec![1, 3]);
    assert_eq!(sweep_all(files.clone(), 4), vec![1, 3, 2]);
    assert_eq!(sweep_all(files, 0), vec![1, 3, 2, 0]);
}

#[test]
fn file_that_cannot_be_removed_still_counts() {
    let files = vec![file(1, 10), file(2, 10), file(3, 10)];
    let mut sweep = RetentionSweep::new(files, 15);
    assert_eq!(sweep.next_victim(), Some(0));
    sweep.victim_removed(false);
    assert_eq!(sweep.next_victim(), Some(1));
    sweep.victim_removed(true);
    assert_eq!(sweep.next_victim(), Some(2));
    sweep.victim_removed(true);
    assert_eq!(sweep.next_victim(), None);
}

#[test]
fn sizes_that_do_not_fit_into_a_number() {
    assert_eq!(sum_of_sizes(&vec![file(0, u64::MAX), file(0, 1)]), None);
    assert_eq!(sum_of_sizes(&vec![file(0, u64::MAX), file(0, 0)]), Some(u64::MAX));
    assert_eq!(sum_of_sizes(&Vec::new()), Some(0));
}

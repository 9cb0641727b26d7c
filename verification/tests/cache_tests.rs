use buzz::models::SizedFile;
use buzz::object_file::ObjectFile;
use buzz::range_cache::{RangeCache, ReadOutcome};

#[test]
fn test_prefetch_deduplication() {
    // overlapping hints coalesce with the read range into one download
    let mut cache = RangeCache::new();
    cache.prefetch(0, 100);
    cache.prefetch(50, 100);
    let reqs = match cache.read(0, 200) {
        ReadOutcome::Waiting(reqs) => reqs,
        _ => panic!("nothing was downloaded yet: the read must wait"),
    };
    assert_eq!(reqs.len(), 1);
    assert_eq!(reqs[0].start, 0);
    assert_eq!(reqs[0].length, 200);
    let stats = cache.statistics();
    assert_eq!(stats.download_count, 1);
    assert_eq!(stats.downloaded_bytes, 0);

    let bytes = (0..200).map(|i| (i % 251) as u8).collect::<Vec<u8>>();
    assert!(cache.complete(0, bytes.clone()));
    let stats = cache.statistics();
    assert_eq!(stats.download_count, 1);
    assert_eq!(stats.downloaded_bytes, 200);

    match cache.read(0, 200) {
        ReadOutcome::Bytes(b) => assert_eq!(b, bytes),
        _ => panic!("the range is fully downloaded"),
    }
    let stats = cache.statistics();
    assert!(stats.downloaded_bytes >= stats.processed_bytes);
    assert_eq!(stats.processed_bytes, 200);
}

#[test]
fn test_read_assembles_across_downloads() {
    let mut cache = RangeCache::new();
    // force two separate downloads, then read across their boundary
    match cache.read(0, 4) {
        ReadOutcome::Waiting(reqs) => {
            assert_eq!(reqs.len(), 1);
            assert!(cache.complete(0, vec![1, 2, 3, 4]));
        }
        _ => panic!("first read must wait"),
    }
    match cache.read(4, 4) {
        ReadOutcome::Waiting(reqs) => {
            assert_eq!(reqs.len(), 1);
            assert_eq!(reqs[0].start, 4);
            assert!(cache.complete(4, vec![5, 6, 7, 8]));
        }
        _ => panic!("second read must wait"),
    }
    match cache.read(2, 4) {
        ReadOutcome::Bytes(b) => assert_eq!(b, vec![3, 4, 5, 6]),
        _ => panic!("both covering downloads are ready"),
    }
    assert_eq!(cache.statistics().download_count, 2);
    assert_eq!(cache.statistics().downloaded_bytes, 8);
}

#[test]
fn test_failed_download_poisons_reads() {
    let mut cache = RangeCache::new();
    match cache.read(10, 10) {
        ReadOutcome::Waiting(reqs) => {
            assert_eq!(reqs.len(), 1);
            assert!(cache.fail(10));
        }
        _ => panic!("the read must wait"),
    }
    match cache.read(10, 10) {
        ReadOutcome::Failed => {}
        _ => panic!("a failed download poisons overlapping reads"),
    }
    // and the poisoned outcome surfaces as an I/O error
    match cache.read(12, 2) {
        outcome @ ReadOutcome::Failed => match outcome.into_io_result() {
            Err(buzz::error::BuzzError::Io(_)) => {}
            _ => panic!("a poisoned read is an I/O error"),
        },
        _ => panic!("overlap with the failed range"),
    }
}

#[test]
fn test_counters_monotone_and_exact() {
    let mut cache = RangeCache::new();
    let mut last_downloaded = 0;
    let mut last_count = 0;
    for i in 0..4u64 {
        match cache.read(i * 100, 50) {
            ReadOutcome::Waiting(reqs) => {
                assert_eq!(reqs.len(), 1);
                assert!(cache.complete(i * 100, vec![0u8; 50]));
            }
            _ => panic!("every range is new"),
        }
        let stats = cache.statistics();
        assert!(stats.downloaded_bytes >= last_downloaded);
        assert!(stats.download_count >= last_count);
        assert!(stats.downloaded_bytes >= stats.processed_bytes);
        last_downloaded = stats.downloaded_bytes;
        last_count = stats.download_count;
    }
    assert_eq!(cache.statistics().download_count, 4);
    assert_eq!(cache.statistics().downloaded_bytes, 200);
    cache.note_wait(17);
    assert_eq!(cache.statistics().waiting_download_ms, 17);
}

#[test]
fn test_complete_unknown_download_is_refused() {
    let mut cache = RangeCache::new();
    assert!(!cache.complete(0, vec![1, 2, 3]));
    assert!(!cache.fail(0));
    assert_eq!(cache.statistics().downloaded_bytes, 0);
}

#[test]
fn test_object_file_window() {
    let mut f = ObjectFile::new(SizedFile { key: "obj".to_owned(), length: 100 });
    assert_eq!(f.len(), 100);
    f.seek(10);
    assert_eq!(f.cursor, 10);
    f.prefetch(0, 40);
    match f.read_at(0, 40) {
        ReadOutcome::Waiting(reqs) => {
            assert_eq!(reqs.len(), 1);
            assert!(f.cache.complete(0, (0u8..40).collect()));
        }
        _ => panic!("nothing downloaded yet"),
    }
    match f.read_at(8, 4) {
        ReadOutcome::Bytes(b) => assert_eq!(b, vec![8, 9, 10, 11]),
        _ => panic!("the window is ready"),
    }
}

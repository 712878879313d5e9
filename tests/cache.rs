use saveshop::cache::{can_skip, entry_length, log_record_text, LogError, ResourceCache};
use saveshop::media::{on_response, record_finished, video_is_cached, ResponseStep};
use saveshop::text::parse_u64;

const BANNER: &str = "https://kanzashi-ctr.cdn.nintendo.net/i/banner.jpg";

#[test]
fn second_fetch_of_a_resource_is_a_cache_hit() {
    let mut cache = ResourceCache::new();
    // first fetch: nothing known, nothing on disk
    assert!(!can_skip(&cache, BANNER, None));
    assert_eq!(on_response(None, Some(2048)), ResponseStep::Download);
    cache.record(BANNER, 2048);
    // second fetch: the file on disk has the recorded length
    assert!(can_skip(&cache, BANNER, Some(2048)));
    assert!(!can_skip(&cache, BANNER, Some(1000)));
    assert!(!can_skip(&cache, BANNER, None));
}

#[test]
fn shared_banner_is_downloaded_once() {
    let mut cache = ResourceCache::new();
    let mut downloads = 0;
    let mut on_disk: Option<u64> = None;
    for _title in ["T1", "T2"] {
        if can_skip(&cache, BANNER, on_disk) {
            continue;
        }
        match on_response(on_disk, Some(4096)) {
            ResponseStep::KeepExisting(n) => cache.record(BANNER, n),
            ResponseStep::Download => {
                downloads += 1;
                on_disk = Some(4096);
                cache.record(BANNER, 4096);
            }
        }
    }
    assert_eq!(downloads, 1);
    assert_eq!(cache.lookup(BANNER), Some(4096));
}

#[test]
fn file_on_disk_with_reported_length_is_kept() {
    assert_eq!(on_response(Some(77), Some(77)), ResponseStep::KeepExisting(77));
    assert_eq!(on_response(Some(77), Some(78)), ResponseStep::Download);
    assert_eq!(on_response(Some(77), None), ResponseStep::Download);
}

#[test]
fn record_replaces_a_length() {
    let mut cache = ResourceCache::new();
    cache.record("a", 1);
    cache.record("b", 2);
    cache.record("a", 3);
    assert_eq!(cache.lookup("a"), Some(3));
    assert_eq!(cache.lookup("b"), Some(2));
    assert_eq!(cache.lookup("c"), None);
}

#[test]
fn fetched_document_is_logged_once() {
    let mut cache = ResourceCache::new();
    assert!(cache.note_fetched("https://x/doc"));
    assert!(!cache.note_fetched("https://x/doc"));
    assert_eq!(cache.lookup("https://x/doc"), Some(1));
}

#[test]
fn log_record_layout() {
    let headers = vec![
        ("content-type".to_string(), "image/jpeg".to_string()),
        ("content-length".to_string(), "2048".to_string()),
    ];
    let text = log_record_text(BANNER, &headers);
    let expected = format!(
        "{{\n  \"url\": \"{}\",\n  \"response_headers\": {{\n    \"content-type\": \"image/jpeg\",\n    \"content-length\": \"2048\"\n  }}\n}}\n{}\n",
        BANNER,
        "-".repeat(50)
    );
    assert_eq!(text, expected);
}

#[test]
fn replayed_log_restores_cache_hits() {
    let mut log = log_record_text(BANNER, &vec![("content-length".to_string(), "2048".to_string())]);
    log.push_str(&log_record_text("https://kanzashi-ctr.cdn.nintendo.net/i/icon.png", &vec![("transfer-encoding".to_string(), "chunked".to_string())]));
    let cache = ResourceCache::from_log(&log).unwrap();
    assert_eq!(cache.lookup(BANNER), Some(2048));
    assert!(can_skip(&cache, BANNER, Some(2048)));
    assert_eq!(cache.lookup("https://kanzashi-ctr.cdn.nintendo.net/i/icon.png"), Some(1));
}

#[test]
fn empty_log_gives_empty_cache() {
    let cache = ResourceCache::from_log("").unwrap();
    assert_eq!(cache.lookup(BANNER), None);
}

#[test]
fn last_record_without_separator_is_read() {
    let cache = ResourceCache::from_log("{\"url\": \"u\", \"response_headers\": {\"content-length\": \"9\"}}").unwrap();
    assert_eq!(cache.lookup("u"), Some(9));
}

#[test]
fn malformed_log_record_is_reported() {
    let sep = format!("{}\n", "-".repeat(50));
    let log = format!("{{\"url\": \"u\", \"response_headers\": {{}}}}\n{}not json\n{}", sep, sep);
    assert_eq!(ResourceCache::from_log(&log).map(|_| ()), Err(LogError::Malformed { record: 1 }));
}

#[test]
fn bad_logged_length_is_reported() {
    let log = "{\"url\": \"u\", \"response_headers\": {\"content-length\": \"12x\"}}";
    assert_eq!(ResourceCache::from_log(log).map(|_| ()), Err(LogError::BadLength { record: 0 }));
}

#[test]
fn logged_lengths() {
    assert_eq!(entry_length(None), Some(1));
    assert_eq!(entry_length(Some("345")), Some(345));
    assert_eq!(entry_length(Some("")), None);
    assert_eq!(entry_length(Some("-3")), None);
    assert_eq!(parse_u64("18446744073709551615"), Some(u64::MAX));
    assert_eq!(parse_u64("18446744073709551616"), None);
    assert_eq!(parse_u64("007"), Some(7));
}

#[test]
fn video_with_recorded_length_needs_no_request() {
    let mut cache = ResourceCache::new();
    let url = "https://kanzashi-movie-ctr.cdn.nintendo.net/m/a.moflex";
    assert!(!video_is_cached(&cache, url));
    cache.record(url, 0);
    assert!(!video_is_cached(&cache, url));
    cache.record(url, 5_000_000);
    assert!(video_is_cached(&cache, url));
}

#[test]
fn finished_fetch_records_the_right_length() {
    let mut cache = ResourceCache::new();
    record_finished(&mut cache, "a", ResponseStep::KeepExisting(70), 5);
    record_finished(&mut cache, "b", ResponseStep::Download, 5);
    assert_eq!(cache.lookup("a"), Some(70));
    assert_eq!(cache.lookup("b"), Some(5));
}

use playlist_merger::error::AppError;
use playlist_merger::manifest::encode_playlist;
use playlist_merger::merge::{
    MergedStreamTable, SYNTHETIC_VERSION, SyntheticMasterPlaylist, gather_batches, merge_playlists,
    merge_samples,
};
use playlist_merger::pipeline::{merge_entry_results, process_playlist};
use playlist_merger::sample::{ProbeEvent, QualitySample};

fn q(url: &str, bandwidth: u64, response_ms: u64) -> QualitySample {
    QualitySample { url: url.to_string(), bandwidth, response_ms }
}

fn bandwidth_of(p: &SyntheticMasterPlaylist, uri: &str) -> Option<u64> {
    p.variants.iter().find(|v| v.uri == uri).map(|v| v.bandwidth)
}

fn sorted_pairs(t: &MergedStreamTable) -> Vec<(String, u64)> {
    let mut v: Vec<(String, u64)> = t.entries.iter().map(|e| (e.url.clone(), e.bandwidth)).collect();
    v.sort();
    v
}

#[test]
fn merge_keeps_maximum_per_url() {
    let t = merge_samples(&vec![q("a", 5, 1), q("b", 3, 1), q("a", 9, 1), q("a", 7, 1), q("c", 0, 1)]);
    assert_eq!(sorted_pairs(&t), vec![("a".to_string(), 9), ("b".to_string(), 3), ("c".to_string(), 0)]);
}

#[test]
fn merge_tie_keeps_first_seen() {
    let t = merge_samples(&vec![q("a", 5, 11), q("a", 5, 22)]);
    assert_eq!(t.entries.len(), 1);
    assert_eq!(t.entries[0].response_ms, 11);
}

#[test]
fn merge_of_own_output_twice_is_unchanged() {
    let t = merge_samples(&vec![q("a", 5, 1), q("b", 3, 2), q("a", 9, 3)]);
    let mut doubled: Vec<QualitySample> = t.entries.clone();
    doubled.extend(t.entries.clone());
    let again = merge_samples(&doubled);
    assert_eq!(again.entries.len(), t.entries.len());
    for (x, y) in again.entries.iter().zip(t.entries.iter()) {
        assert_eq!(x.url, y.url);
        assert_eq!(x.bandwidth, y.bandwidth);
        assert_eq!(x.response_ms, y.response_ms);
    }
}

#[test]
fn merge_result_independent_of_order() {
    let s = vec![q("a", 5, 1), q("b", 3, 1), q("a", 9, 1), q("b", 4, 1), q("c", 1, 1)];
    let mut r = s.clone();
    r.reverse();
    let mut m = s.clone();
    m.rotate_left(2);
    assert_eq!(sorted_pairs(&merge_samples(&s)), sorted_pairs(&merge_samples(&r)));
    assert_eq!(sorted_pairs(&merge_samples(&s)), sorted_pairs(&merge_samples(&m)));
}

#[test]
fn synthetic_playlist_has_fixed_header() {
    let p = merge_playlists(vec![vec![q("a", 5, 1)], vec![q("a", 6, 1), q("b", 2, 1)]]);
    assert_eq!(p.version, 6);
    assert_eq!(p.version, SYNTHETIC_VERSION);
    assert!(!p.independent_segments);
    assert_eq!(p.variants.len(), 2);
    assert_eq!(bandwidth_of(&p, "a"), Some(6));
    assert_eq!(bandwidth_of(&p, "b"), Some(2));
}

#[test]
fn gather_keeps_batch_order() {
    let all = gather_batches(&vec![vec![q("a", 1, 1), q("b", 2, 1)], vec![], vec![q("c", 3, 1)]]);
    let urls: Vec<&str> = all.iter().map(|x| x.url.as_str()).collect();
    assert_eq!(urls, vec!["a", "b", "c"]);
}

#[test]
fn three_manifests_one_failing() {
    let first = vec![q("http://s/a.m3u8", 500, 10), q("http://s/a.m3u8", 900, 12)];
    let third = process_playlist(
        &vec!["http://s/seg0.ts".to_string()],
        &vec![ProbeEvent::Responded { bandwidth_header: None, elapsed_ms: 30 }],
    );
    let results = vec![Ok(first), Err(AppError::ReqwestError("404".to_string())), Ok(third)];
    let p = merge_entry_results(&results);
    assert_eq!(p.variants.len(), 2);
    assert_eq!(bandwidth_of(&p, "http://s/a.m3u8"), Some(900));
    assert_eq!(bandwidth_of(&p, "http://s/seg0.ts"), Some(0));
}

#[test]
fn failed_entry_keeps_other_samples() {
    let ok = vec![q("x", 4, 1)];
    let alone = merge_entry_results(&vec![Ok(ok.clone())]);
    let with_failure = merge_entry_results(&vec![
        Err(AppError::M3u8Error("bad".to_string())),
        Ok(ok),
        Err(AppError::TimeoutError),
    ]);
    assert_eq!(alone.variants.len(), 1);
    assert_eq!(with_failure.variants.len(), 1);
    assert_eq!(bandwidth_of(&with_failure, "x"), Some(4));
}

#[test]
fn empty_candidate_list_gives_empty_playlist() {
    let p = merge_entry_results(&Vec::new());
    assert_eq!(p.variants.len(), 0);
    assert_eq!(p.version, 6);
}

#[test]
fn all_streams_timing_out_gives_empty_playlist() {
    let a = process_playlist(&vec!["u1".to_string(), "u2".to_string()], &vec![ProbeEvent::TimedOut, ProbeEvent::TimedOut]);
    let b = process_playlist(
        &vec!["u3".to_string()],
        &vec![ProbeEvent::Responded { bandwidth_header: Some("7".to_string()), elapsed_ms: 9000 }],
    );
    let p = merge_entry_results(&vec![Ok(a), Ok(b)]);
    assert_eq!(p.variants.len(), 0);
}

#[test]
fn encoded_playlist_lists_variants() {
    let p = merge_playlists(vec![vec![q("http://s/a.m3u8", 900, 1)]]);
    let encoded = encode_playlist(&p);
    assert!(encoded.is_ok());
    let bytes = encoded.unwrap();
    let text = String::from_utf8(bytes).unwrap();
    assert!(text.starts_with("#EXTM3U"));
    assert!(text.contains("#EXT-X-VERSION:6"));
    assert!(!text.contains("INDEPENDENT-SEGMENTS"));
    assert!(text.contains("BANDWIDTH=900"));
    assert!(text.contains("http://s/a.m3u8"));
}

#[test]
fn table_insert_replaces_only_on_greater_bandwidth() {
    let mut t = MergedStreamTable::new();
    t.insert(q("a", 5, 1));
    t.insert(q("b", 2, 1));
    assert_eq!(t.find(&"a".to_string()), Some(0));
    assert_eq!(t.find(&"b".to_string()), Some(1));
    assert_eq!(t.find(&"z".to_string()), None);
    t.insert(q("a", 4, 2));
    assert_eq!(t.entries[0].bandwidth, 5);
    assert_eq!(t.entries[0].response_ms, 1);
    t.insert(q("a", 8, 3));
    assert_eq!(t.entries.len(), 2);
    assert_eq!(t.entries[0].bandwidth, 8);
    assert_eq!(t.entries[0].response_ms, 3);
}

#[test]
fn remerge_with_other_response_times_keeps_mapping() {
    let t = merge_samples(&vec![q("a", 5, 1), q("b", 3, 2), q("a", 9, 3)]);
    let r: Vec<QualitySample> = t.entries.iter().map(|e| q(&e.url, e.bandwidth, 777)).collect();
    let mut doubled = r.clone();
    doubled.extend(r);
    let again = merge_samples(&doubled);
    assert_eq!(sorted_pairs(&again), sorted_pairs(&t));
}

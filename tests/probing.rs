use playlist_merger::error::AppError;
use playlist_merger::manifest::{Playlist, process_m3u8, stream_uris};
use playlist_merger::pipeline::process_playlist;
use playlist_merger::sample::{
    PROBE_TIMEOUT_MS, ProbeEvent, QualitySample, check_stream_quality, collect_samples,
    parse_bandwidth,
};

fn responded(header: Option<&str>, elapsed_ms: u64) -> ProbeEvent {
    ProbeEvent::Responded { bandwidth_header: header.map(|h| h.to_string()), elapsed_ms }
}

#[test]
fn bandwidth_header_decimal() {
    assert_eq!(parse_bandwidth(Some("1500")), 1500);
    assert_eq!(parse_bandwidth(Some("+7")), 7);
    assert_eq!(parse_bandwidth(Some("0")), 0);
    assert_eq!(parse_bandwidth(Some("18446744073709551615")), u64::MAX);
}

#[test]
fn bandwidth_header_unusable_is_zero() {
    assert_eq!(parse_bandwidth(None), 0);
    assert_eq!(parse_bandwidth(Some("")), 0);
    assert_eq!(parse_bandwidth(Some("+")), 0);
    assert_eq!(parse_bandwidth(Some("-5")), 0);
    assert_eq!(parse_bandwidth(Some("12a")), 0);
    assert_eq!(parse_bandwidth(Some(" 12")), 0);
    assert_eq!(parse_bandwidth(Some("18446744073709551616")), 0);
}

#[test]
fn probe_with_header_gives_sample() {
    let r = check_stream_quality(&"http://a/1.m3u8".to_string(), &responded(Some("900"), 120));
    let q = r.unwrap();
    assert_eq!(q.url, "http://a/1.m3u8");
    assert_eq!(q.bandwidth, 900);
    assert_eq!(q.response_ms, 120);
}

#[test]
fn probe_without_header_has_bandwidth_zero() {
    let q = check_stream_quality(&"http://a/seg.ts".to_string(), &responded(None, 10)).unwrap();
    assert_eq!(q.bandwidth, 0);
}

#[test]
fn probe_timeout_is_error() {
    let r = check_stream_quality(&"http://slow".to_string(), &ProbeEvent::TimedOut);
    assert!(matches!(r, Err(AppError::TimeoutError)));
    let late = check_stream_quality(&"http://slow".to_string(), &responded(Some("5"), PROBE_TIMEOUT_MS + 1));
    assert!(matches!(late, Err(AppError::TimeoutError)));
    let edge = check_stream_quality(&"http://edge".to_string(), &responded(Some("5"), PROBE_TIMEOUT_MS));
    assert!(edge.is_ok());
}

#[test]
fn probe_transport_failure_is_error() {
    let r = check_stream_quality(
        &"http://down".to_string(),
        &ProbeEvent::TransportFailed { message: "refused".to_string() },
    );
    match r {
        Err(AppError::ReqwestError(m)) => assert_eq!(m, "refused"),
        other => panic!("unexpected {:?}", other),
    }
}

#[test]
fn collect_keeps_successes_in_order() {
    let a = QualitySample { url: "a".to_string(), bandwidth: 1, response_ms: 3 };
    let b = QualitySample { url: "b".to_string(), bandwidth: 2, response_ms: 4 };
    let out = collect_samples(vec![Ok(a), Err(AppError::TimeoutError), Ok(b)]);
    assert_eq!(out.len(), 2);
    assert_eq!(out[0].url, "a");
    assert_eq!(out[1].url, "b");
}

#[test]
fn slow_probe_does_not_affect_fast_sibling() {
    let uris = vec!["http://fast".to_string(), "http://slow".to_string()];
    let events = vec![responded(Some("800"), 40), ProbeEvent::TimedOut];
    let out = process_playlist(&uris, &events);
    assert_eq!(out.len(), 1);
    assert_eq!(out[0].url, "http://fast");
    assert_eq!(out[0].bandwidth, 800);
}

#[test]
fn every_probe_failing_gives_empty_sequence() {
    let uris = vec!["http://x".to_string(), "http://y".to_string()];
    let events = vec![
        ProbeEvent::TimedOut,
        ProbeEvent::TransportFailed { message: "dns".to_string() },
    ];
    assert!(process_playlist(&uris, &events).is_empty());
}

#[test]
fn master_manifest_decodes_to_variant_uris() {
    let text = "#EXTM3U\n#EXT-X-STREAM-INF:BANDWIDTH=500\nhttp://v/low.m3u8\n#EXT-X-STREAM-INF:BANDWIDTH=900\nhttp://v/high.m3u8\n";
    let p = process_m3u8(Ok(text.as_bytes().to_vec())).unwrap();
    assert!(matches!(p, Playlist::MasterPlaylist { .. }));
    assert_eq!(stream_uris(&p), vec!["http://v/low.m3u8".to_string(), "http://v/high.m3u8".to_string()]);
}

#[test]
fn media_manifest_decodes_to_segment_uris() {
    let text = "#EXTM3U\n#EXT-X-TARGETDURATION:10\n#EXT-X-VERSION:3\n#EXTINF:9.0,\nseg0.ts\n#EXTINF:9.0,\nseg1.ts\n#EXT-X-ENDLIST\n";
    let p = process_m3u8(Ok(text.as_bytes().to_vec())).unwrap();
    assert!(matches!(p, Playlist::MediaPlaylist { .. }));
    assert_eq!(stream_uris(&p), vec!["seg0.ts".to_string(), "seg1.ts".to_string()]);
}

#[test]
fn garbage_manifest_is_codec_error() {
    let r = process_m3u8(Ok(b"not a playlist at all".to_vec()));
    assert!(matches!(r, Err(AppError::M3u8Error(_))));
}

#[test]
fn transport_failure_is_not_codec_error() {
    let r = process_m3u8(Err("connection reset".to_string()));
    match r {
        Err(AppError::ReqwestError(m)) => assert_eq!(m, "connection reset"),
        other => panic!("unexpected {:?}", other),
    }
}

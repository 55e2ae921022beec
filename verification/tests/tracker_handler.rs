use bit_torrent_rustico::tracker::{
    ConnectionProtocol, TrackerHandler, TrackerHandlerError, TrackerResponse, TrackerUrl,
    TrackerUrlError,
};

/// The bencoded body a tracker would answer an announce with: an interval
/// and one peer, in the dictionary model.
fn simulated_tracker_response() -> Vec<u8> {
    b"d8:intervali1800e5:peersld2:ip12:91.189.95.217:peer id20:aaaaabbbbbcccccddddd4:porti6881eeee"
        .to_vec()
}

#[test]
fn test_get_peers_list() {
    let torrent_length = 100u64;
    let test_port = 6969;
    let announce = "https://torrent.ubuntu.com:443/announce";
    let info_hash = "2c6b6858d61da9543d4231a71db4b1c9264b0685";

    let tracker_handler = TrackerHandler::new(
        announce.as_bytes(),
        info_hash.as_bytes().to_vec(),
        torrent_length,
        test_port,
    )
    .unwrap();

    // The HTTPS exchange happens outside the library; the tracker's reply
    // body is handed in as bytes.
    let response = simulated_tracker_response();
    assert!(tracker_handler.get_peers_list(&response).unwrap().peers.len() > 0);
}

#[test]
fn test_parse_announce_url() {
    let u = TrackerUrl::parse(b"https://torrent.ubuntu.com:443/announce").unwrap();
    assert_eq!(u.protocol, ConnectionProtocol::Https);
    assert_eq!(u.host, b"torrent.ubuntu.com".to_vec());
    assert_eq!(u.port, 443);
    assert_eq!(u.path, b"/announce".to_vec());

    let u = TrackerUrl::parse(b"http://tracker.example/announce").unwrap();
    assert_eq!(u.protocol, ConnectionProtocol::Http);
    assert_eq!(u.host, b"tracker.example".to_vec());
    assert_eq!(u.port, 80);
    assert_eq!(u.path, b"/announce".to_vec());

    let u = TrackerUrl::parse(b"http://tracker.example").unwrap();
    assert_eq!(u.port, 80);
    assert_eq!(u.path, b"".to_vec());

    let u = TrackerUrl::parse(b"https://tracker.example:8080").unwrap();
    assert_eq!(u.port, 8080);
}

#[test]
fn test_parse_announce_url_rejections() {
    assert!(matches!(
        TrackerUrl::parse(b"udp://tracker.example/announce"),
        Err(TrackerUrlError::UnsupportedScheme)
    ));
    assert!(matches!(
        TrackerUrl::parse(b"http:///announce"),
        Err(TrackerUrlError::EmptyHost)
    ));
    assert!(matches!(
        TrackerUrl::parse(b"http://tracker.example:/announce"),
        Err(TrackerUrlError::BadPort)
    ));
    assert!(matches!(
        TrackerUrl::parse(b"http://tracker.example:99999/announce"),
        Err(TrackerUrlError::BadPort)
    ));
}

#[test]
fn test_handler_reports_a_bad_announce_url() {
    assert!(matches!(
        TrackerHandler::new(b"ftp://tracker.example/announce", vec![0; 20], 1, 1),
        Err(TrackerHandlerError::UrlParseError(
            TrackerUrlError::UnsupportedScheme
        ))
    ));
}

#[test]
fn test_response_parsing() {
    let response = simulated_tracker_response();
    let parsed = TrackerResponse::from_bytes(&response).unwrap();
    assert_eq!(parsed.interval, 1800);
    assert_eq!(parsed.peers.len(), 1);
    assert_eq!(parsed.peers[0].ip, b"91.189.95.21".to_vec());
    assert_eq!(parsed.peers[0].port, 6881);
    assert_eq!(
        parsed.peers[0].peer_id,
        Some(b"aaaaabbbbbcccccddddd".to_vec())
    );
}

#[test]
fn test_response_rejections() {
    let h = TrackerHandler::new(b"http://t.example/a", vec![0; 20], 1, 1).unwrap();
    assert!(matches!(
        h.get_peers_list(b"not bencode"),
        Err(TrackerHandlerError::FromTrackerResponseError(_))
    ));
    // A peer without a port is refused.
    assert!(TrackerResponse::from_bytes(b"d5:peersld2:ip7:1.2.3.4eee").is_err());
    // Unknown keys are walked over.
    let r = TrackerResponse::from_bytes(b"d8:completei3e5:peersle3:xyzi1ee").unwrap();
    assert_eq!(r.peers.len(), 0);
}

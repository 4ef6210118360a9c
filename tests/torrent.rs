use anicargo::torrent::{daemon_accepted, magnet_input, torrent_input, trim_base_url, QbittorrentError};

#[test]
fn rejects_empty_magnet() {
    let err = magnet_input("  ").unwrap_err();
    assert!(matches!(err, QbittorrentError::InvalidInput(_)));
}

#[test]
fn rejects_empty_torrent() {
    let err = torrent_input(&Vec::new()).unwrap_err();
    assert!(matches!(err, QbittorrentError::InvalidInput(_)));
}

#[test]
fn daemon_inputs_and_answers() {
    assert_eq!(magnet_input(" magnet:?xt=urn:btih:abc \n").unwrap(), "magnet:?xt=urn:btih:abc");
    assert!(torrent_input(&vec![1u8]).is_ok());
    assert_eq!(trim_base_url("http://127.0.0.1:8080//"), "http://127.0.0.1:8080");
    assert!(daemon_accepted(true, "Ok."));
    assert!(!daemon_accepted(true, "Fails."));
    assert!(!daemon_accepted(false, "Ok."));
}

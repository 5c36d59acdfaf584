use lsp_skill::runtime::{compute_connect_url, RuntimeMetadata};

#[test]
fn maps_wildcard_host_to_loopback() {
    assert_eq!(compute_connect_url("0.0.0.0", 4000), "http://127.0.0.1:4000");
    assert_eq!(compute_connect_url("::", 4000), "http://127.0.0.1:4000");
}

#[test]
fn keeps_specific_host() {
    assert_eq!(compute_connect_url("192.168.1.5", 9012), "http://192.168.1.5:9012");
}

#[test]
fn runtime_metadata_records_connect_url() {
    let meta = RuntimeMetadata::new(42, "0.0.0.0".to_string(), 4000);
    assert_eq!(meta.pid, 42);
    assert_eq!(meta.listen_host, "0.0.0.0");
    assert_eq!(meta.port, 4000);
    assert_eq!(meta.connect_url, "http://127.0.0.1:4000");
}

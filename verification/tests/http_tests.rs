use saba_core::http::HttpClient;

#[test]
fn test_client_default_equals_new() {
    assert!(HttpClient::new() == HttpClient::default());
}

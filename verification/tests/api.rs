use unifi_search::unifi::api::{
    open_envelope, Exchange, RespMeta, RespResult, UnifiAPIError, UnifiClient,
    REQUEST_TIMEOUT_SECS,
};
use unifi_search::unifi::devices::UnifiSite;

fn envelope<T>(result: RespResult, data: T) -> Exchange<T> {
    Exchange::Envelope { meta: RespMeta { result, msg: None }, data }
}

fn logged_in_client() -> UnifiClient {
    let mut client = UnifiClient::new("https://unifi.example".to_string(), false);
    client.login("https://unifi.example/login", envelope(RespResult::Success, ())).unwrap();
    client
}

#[test]
fn requests_time_out_after_ten_seconds() {
    assert_eq!(REQUEST_TIMEOUT_SECS, 10);
}

#[test]
fn new_session_is_not_logged_in() {
    let client = UnifiClient::new("https://unifi.example".to_string(), true);
    assert!(!client.is_logged_in());
    assert!(client.accept_invalid_certs());
    assert_eq!(client.server_url(), "https://unifi.example");
}

#[test]
fn login_succeeds_on_an_envelope_that_reports_success() {
    let mut client = UnifiClient::new("https://unifi.example".to_string(), false);
    let result = client.login("https://unifi.example/login", envelope(RespResult::Success, ()));
    assert!(result.is_ok());
    assert!(client.is_logged_in());
}

#[test]
fn login_turned_down_names_the_url() {
    let mut client = UnifiClient::new("https://unifi.example".to_string(), false);
    let result = client.login("https://unifi.example/login", envelope(RespResult::Failure, ()));
    match result {
        Err(UnifiAPIError::LoginAuthenticationError { url }) => {
            assert_eq!(url, "https://unifi.example/login")
        }
        other => panic!("unexpected result: {:?}", other),
    }
    assert!(!client.is_logged_in());
}

#[test]
fn login_without_an_answer_is_a_failed_request() {
    let mut client = UnifiClient::new("https://unifi.example".to_string(), false);
    let result = client.login("https://unifi.example/login", Exchange::Unanswered);
    assert!(matches!(result, Err(UnifiAPIError::ReqwestError)));
    assert!(!client.is_logged_in());
}

#[test]
fn login_with_a_malformed_answer_fails_to_decode() {
    let mut client = UnifiClient::new("https://unifi.example".to_string(), false);
    let result = client.login("https://unifi.example/login", Exchange::Malformed);
    assert!(matches!(result, Err(UnifiAPIError::JsonError { .. })));
    assert!(!client.is_logged_in());
}

#[test]
fn failed_login_logs_the_session_out() {
    let mut client = logged_in_client();
    assert!(client.is_logged_in());
    let _ = client.login("https://unifi.example/login", envelope(RespResult::Failure, ()));
    assert!(!client.is_logged_in());
}

#[test]
fn sites_come_out_of_a_successful_envelope_in_order() {
    let client = logged_in_client();
    let listed = vec![
        UnifiSite { code: "a".to_string(), desc: "First".to_string() },
        UnifiSite { code: "b".to_string(), desc: "Second".to_string() },
    ];
    let sites = client.get_sites("u", envelope(RespResult::Success, listed)).unwrap();
    let names: Vec<&str> = sites.iter().map(|s| s.desc.as_str()).collect();
    assert_eq!(names, vec!["First", "Second"]);
}

#[test]
fn envelope_that_reports_an_error_fails_and_names_the_url() {
    let client = logged_in_client();
    let result = client.get_sites("https://unifi.example/sites", envelope(RespResult::Failure, vec![]));
    match result {
        Err(UnifiAPIError::JsonError { url }) => assert_eq!(url, "https://unifi.example/sites"),
        other => panic!("unexpected result: {:?}", other),
    }
}

#[test]
fn devices_exchange_is_judged_like_any_other() {
    let client = logged_in_client();
    assert!(matches!(
        client.get_site_devices_basic("u", Exchange::Unanswered),
        Err(UnifiAPIError::ReqwestError)
    ));
    assert!(matches!(
        client.get_site_devices_basic("u", Exchange::Malformed),
        Err(UnifiAPIError::JsonError { .. })
    ));
    let devices = client.get_site_devices_basic("u", envelope(RespResult::Success, vec![])).unwrap();
    assert!(devices.is_empty());
}

#[test]
fn open_envelope_hands_out_the_data() {
    assert_eq!(open_envelope("u", envelope(RespResult::Success, 7u32)).unwrap(), 7);
    assert!(matches!(
        open_envelope::<u32>("u", Exchange::Unanswered),
        Err(UnifiAPIError::ReqwestError)
    ));
}

#[test]
fn messages_name_the_url_where_there_is_one() {
    assert_eq!(UnifiAPIError::ClientError.message(), "Failed to create HTTP client");
    assert_eq!(UnifiAPIError::ReqwestError.message(), "Request error");
    assert_eq!(
        UnifiAPIError::LoginAuthenticationError { url: "https://c/login".to_string() }.message(),
        "Login failed: invalid credentials for https://c/login"
    );
    assert_eq!(
        UnifiAPIError::JsonError { url: "https://c/sites".to_string() }.message(),
        "JSON parsing failed for https://c/sites"
    );
}

use unifi_search::mac_address::MacAddress;
use unifi_search::unifi::api::UnifiAPIError;
use unifi_search::unifi::devices::{UnifiDeviceBasic, UnifiSite};
use unifi_search::unifi::model::SearchPhase;
use unifi_search::unifi::search::{
    erase_credentials, find_device, find_unifi_device, try_cancelled, CancelSignal, Progress,
    SearchCommand, SearchEvent, UnifiSearch, UnifiSearchInfo, UnifiSearchResult,
};

/// What the controller and the user would do during one search.
struct Script {
    login: Result<(), UnifiAPIError>,
    sites: Result<Vec<UnifiSite>, UnifiAPIError>,
    devices: Vec<Option<Result<Vec<UnifiDeviceBasic>, UnifiAPIError>>>,
    /// The look, counted from 0, that finds the cancellation signal.
    signal_at: Option<usize>,
}

/// What was seen of one search.
struct Seen {
    asked: Vec<String>,
    fetched: Vec<usize>,
    progress: Vec<Progress>,
    outcome: UnifiSearchResult,
    request: UnifiSearchInfo,
}

fn site(code: &str, desc: &str) -> UnifiSite {
    UnifiSite { code: code.to_string(), desc: desc.to_string() }
}

fn device(mac: &str, name: Option<&str>, model: &str) -> UnifiDeviceBasic {
    UnifiDeviceBasic {
        mac: MacAddress::parse(mac).unwrap(),
        name: name.map(|n| n.to_string()),
        model: model.to_string(),
        device_label: String::new(),
        site: String::new(),
    }
}

fn request(mac: &str) -> UnifiSearchInfo {
    UnifiSearchInfo {
        username: "admin".to_string(),
        password: "p\u{e4}ssword".to_string(),
        server_url: "https://unifi.example:8443".to_string(),
        mac_to_search: MacAddress::parse(mac).unwrap(),
        accept_invalid_certs: true,
    }
}

fn all_ok(devices: Vec<Vec<UnifiDeviceBasic>>, sites: Vec<UnifiSite>) -> Script {
    Script {
        login: Ok(()),
        sites: Ok(sites),
        devices: devices.into_iter().map(|d| Some(Ok(d))).collect(),
        signal_at: None,
    }
}

fn three_sites() -> Vec<UnifiSite> {
    vec![site("default", "Office"), site("wh01", "Warehouse"), site("lab", "Laboratory")]
}

fn drive(info: UnifiSearchInfo, script: Script) -> Seen {
    let Script { login, sites, mut devices, signal_at } = script;
    let mut login = Some(login);
    let mut sites = Some(sites);
    let mut asked = Vec::new();
    let mut fetched = Vec::new();
    let mut progress = Vec::new();
    let mut looks = 0usize;
    let mut search = UnifiSearch::new(info);
    let mut event = SearchEvent::Started;
    loop {
        assert!(search.expects(&event));
        let (next, command) = find_unifi_device(search, event);
        search = next;
        if let Some(report) = command.progress() {
            progress.push(report);
        }
        match command {
            SearchCommand::Login => {
                asked.push("login".to_string());
                assert_eq!(search.request().username, "admin");
                event = SearchEvent::LoggedIn(login.take().unwrap());
            }
            SearchCommand::PollCancel => {
                let polled = if signal_at == Some(looks) { Some(CancelSignal) } else { None };
                looks += 1;
                event = SearchEvent::CancelPolled(polled);
            }
            SearchCommand::ListSites => {
                asked.push("sites".to_string());
                event = SearchEvent::SitesListed(sites.take().unwrap());
            }
            SearchCommand::FetchDevices { site_index, total_sites, site_code } => {
                asked.push(format!("devices {}/{} {}", site_index, total_sites, site_code));
                fetched.push(site_index);
                event = SearchEvent::DevicesFetched(devices[site_index].take().unwrap());
            }
            SearchCommand::Finish { outcome, .. } => {
                assert_eq!(search.phase(), SearchPhase::Finished);
                return Seen { asked, fetched, progress, outcome, request: search.into_request() };
            }
        }
    }
}

fn all_zero(text: &str, bytes: usize) -> bool {
    text.len() == bytes && text.bytes().all(|b| b == 0)
}

fn credentials_are_erased(seen: &Seen) -> bool {
    // "admin" has 5 bytes, "pässword" has 9
    all_zero(&seen.request.username, 5) && all_zero(&seen.request.password, 9)
}

fn progress_goes_up(progress: &[Progress]) -> bool {
    progress.iter().all(|p| p.total > 0 && p.done <= p.total)
        && progress.windows(2).all(|w| w[0].done * w[1].total <= w[1].done * w[0].total)
}

#[test]
fn finds_device_in_second_of_three_sites() {
    let devices = vec![
        vec![device("00:11:22:33:44:55", Some("Switch"), "US8")],
        vec![
            device("10:11:22:33:44:55", None, "U7PG2"),
            device("AA:BB:CC:DD:EE:FF", Some("Dock AP"), "U7LR"),
        ],
        vec![device("AA:BB:CC:DD:EE:FF", Some("Never seen"), "U7LR")],
    ];
    let seen = drive(request("AA:BB:CC:DD:EE:FF"), all_ok(devices, three_sites()));
    let found = seen.outcome.as_ref().unwrap().as_ref().unwrap();
    assert_eq!(found.site, "Warehouse");
    assert_eq!(found.mac.to_canonical_string(), "AA:BB:CC:DD:EE:FF");
    assert_eq!(found.name.as_deref(), Some("Dock AP"));
    assert_eq!(found.model, "U7LR");
    assert_eq!(found.device_label, "Dock AP");
    assert_eq!(seen.fetched, vec![0, 1]);
    assert_eq!(
        seen.asked,
        vec!["login", "sites", "devices 0/3 default", "devices 1/3 wh01"]
    );
    assert_eq!(
        seen.progress,
        vec![
            Progress { done: 0, total: 3 },
            Progress { done: 1, total: 3 },
            Progress { done: 1, total: 1 },
        ]
    );
    assert!(progress_goes_up(&seen.progress));
    assert!(credentials_are_erased(&seen));
}

#[test]
fn finds_device_by_dash_form_of_the_address() {
    let devices = vec![vec![device("aa:bb:cc:dd:ee:ff", None, "USW-24")]];
    let seen = drive(request("AA-BB-CC-DD-EE-FF"), all_ok(devices, vec![site("s", "Only")]));
    let found = seen.outcome.unwrap().unwrap();
    assert_eq!(found.site, "Only");
    assert_eq!(found.device_label, "USW-24");
    assert_eq!(seen.progress, vec![Progress { done: 0, total: 1 }, Progress { done: 1, total: 1 }]);
}

#[test]
fn first_of_two_devices_with_the_address_wins() {
    let devices = vec![vec![
        device("00:00:00:00:00:01", Some("other"), "m"),
        device("AA:BB:CC:DD:EE:FF", Some("first"), "m"),
        device("AA:BB:CC:DD:EE:FF", Some("second"), "m"),
    ]];
    let seen = drive(request("AA:BB:CC:DD:EE:FF"), all_ok(devices, vec![site("s", "Only")]));
    assert_eq!(seen.outcome.unwrap().unwrap().name.as_deref(), Some("first"));
}

#[test]
fn reports_no_match_after_asking_every_site_once_in_order() {
    let devices = vec![
        vec![device("00:11:22:33:44:55", None, "a")],
        vec![],
        vec![device("00:11:22:33:44:66", None, "b")],
    ];
    let seen = drive(request("AA:BB:CC:DD:EE:FF"), all_ok(devices, three_sites()));
    assert!(matches!(seen.outcome, Ok(None)));
    assert_eq!(seen.fetched, vec![0, 1, 2]);
    assert_eq!(
        seen.progress,
        vec![
            Progress { done: 0, total: 3 },
            Progress { done: 1, total: 3 },
            Progress { done: 2, total: 3 },
        ]
    );
    assert!(credentials_are_erased(&seen));
}

#[test]
fn reports_no_match_where_there_is_no_site() {
    let seen = drive(request("AA:BB:CC:DD:EE:FF"), all_ok(vec![], vec![]));
    assert!(matches!(seen.outcome, Ok(None)));
    assert_eq!(seen.asked, vec!["login", "sites"]);
    assert!(seen.progress.is_empty());
    assert!(credentials_are_erased(&seen));
}

#[test]
fn cancelled_before_the_sites_are_listed() {
    let mut script = all_ok(vec![vec![device("AA:BB:CC:DD:EE:FF", None, "m")]], three_sites());
    script.signal_at = Some(0);
    let seen = drive(request("AA:BB:CC:DD:EE:FF"), script);
    assert!(matches!(seen.outcome, Ok(None)));
    assert_eq!(seen.asked, vec!["login"]);
    assert!(seen.progress.is_empty());
    assert!(credentials_are_erased(&seen));
}

#[test]
fn cancelled_before_the_second_site() {
    let devices = vec![
        vec![device("00:11:22:33:44:55", None, "a")],
        vec![device("AA:BB:CC:DD:EE:FF", None, "m")],
        vec![],
    ];
    let mut script = all_ok(devices, three_sites());
    // look 0 comes before the sites are listed, look 2 before the site at place 1
    script.signal_at = Some(2);
    let seen = drive(request("AA:BB:CC:DD:EE:FF"), script);
    assert!(matches!(seen.outcome, Ok(None)));
    assert_eq!(seen.fetched, vec![0]);
    assert_eq!(seen.progress, vec![Progress { done: 0, total: 3 }]);
    assert!(credentials_are_erased(&seen));
}

#[test]
fn rejected_login_ends_the_search_before_any_other_request() {
    let mut script = all_ok(vec![], three_sites());
    script.login = Err(UnifiAPIError::LoginAuthenticationError {
        url: "https://unifi.example:8443/api/login".to_string(),
    });
    let seen = drive(request("AA:BB:CC:DD:EE:FF"), script);
    match &seen.outcome {
        Err(UnifiAPIError::LoginAuthenticationError { url }) => {
            assert_eq!(url, "https://unifi.example:8443/api/login")
        }
        other => panic!("unexpected outcome: {:?}", other),
    }
    assert_eq!(seen.asked, vec!["login"]);
    assert!(seen.fetched.is_empty());
    assert!(credentials_are_erased(&seen));
}

#[test]
fn client_that_cannot_be_set_up_ends_the_search() {
    let mut script = all_ok(vec![], three_sites());
    script.login = Err(UnifiAPIError::ClientError);
    let seen = drive(request("AA:BB:CC:DD:EE:FF"), script);
    assert!(matches!(seen.outcome, Err(UnifiAPIError::ClientError)));
    assert_eq!(seen.asked, vec!["login"]);
    assert!(credentials_are_erased(&seen));
}

#[test]
fn failed_listing_ends_the_search() {
    let mut script = all_ok(vec![], vec![]);
    script.sites = Err(UnifiAPIError::ReqwestError);
    let seen = drive(request("AA:BB:CC:DD:EE:FF"), script);
    assert!(matches!(seen.outcome, Err(UnifiAPIError::ReqwestError)));
    assert_eq!(seen.asked, vec!["login", "sites"]);
    assert!(credentials_are_erased(&seen));
}

#[test]
fn failed_fetch_ends_the_search_at_that_site() {
    let mut script = all_ok(
        vec![vec![], vec![], vec![device("AA:BB:CC:DD:EE:FF", None, "m")]],
        three_sites(),
    );
    script.devices[1] = Some(Err(UnifiAPIError::JsonError { url: "u".to_string() }));
    let seen = drive(request("AA:BB:CC:DD:EE:FF"), script);
    assert!(matches!(seen.outcome, Err(UnifiAPIError::JsonError { .. })));
    assert_eq!(seen.fetched, vec![0, 1]);
    assert!(credentials_are_erased(&seen));
}

#[test]
fn credentials_are_kept_until_the_login_has_returned() {
    let search = UnifiSearch::new(request("AA:BB:CC:DD:EE:FF"));
    let (search, command) = find_unifi_device(search, SearchEvent::Started);
    assert!(matches!(command, SearchCommand::Login));
    assert_eq!(search.phase(), SearchPhase::AwaitingLogin);
    assert_eq!(search.request().username, "admin");
    assert_eq!(search.request().password, "p\u{e4}ssword");
    let (search, command) = find_unifi_device(search, SearchEvent::LoggedIn(Ok(())));
    assert!(matches!(command, SearchCommand::PollCancel));
    assert_eq!(search.phase(), SearchPhase::AwaitingFirstPoll);
    assert_eq!(search.request().username, "\0\0\0\0\0");
    assert_eq!(search.request().password, "\0\0\0\0\0\0\0\0\0");
    assert_eq!(search.request().server_url, "https://unifi.example:8443");
    assert!(search.request().accept_invalid_certs);
}

#[test]
fn erasing_keeps_the_length_in_bytes_and_the_rest_of_the_request() {
    let mut info = request("01:02:03:04:05:06");
    info.username = "\u{20ac}uro".to_string();
    erase_credentials(&mut info);
    assert_eq!(info.username, "\0\0\0\0\0\0");
    assert_eq!(info.password.len(), 9);
    assert!(info.password.bytes().all(|b| b == 0));
    assert_eq!(info.server_url, "https://unifi.example:8443");
    assert_eq!(info.mac_to_search.value(), 0x0102_0304_0506);
}

#[test]
fn an_answer_that_is_not_waited_for_is_not_expected() {
    let search = UnifiSearch::new(request("AA:BB:CC:DD:EE:FF"));
    assert!(search.expects(&SearchEvent::Started));
    assert!(!search.expects(&SearchEvent::CancelPolled(None)));
    assert!(!search.expects(&SearchEvent::LoggedIn(Ok(()))));
    let (search, _) = find_unifi_device(search, SearchEvent::Started);
    assert!(!search.expects(&SearchEvent::Started));
    assert!(search.expects(&SearchEvent::LoggedIn(Ok(()))));
    let (search, _) =
        find_unifi_device(search, SearchEvent::LoggedIn(Err(UnifiAPIError::ReqwestError)));
    assert!(!search.expects(&SearchEvent::Started));
    assert!(!search.expects(&SearchEvent::SitesListed(Ok(vec![]))));
}

#[test]
fn try_cancelled_tells_a_signal_from_none() {
    assert!(matches!(try_cancelled(Some(CancelSignal)), Ok(true)));
    assert!(matches!(try_cancelled(None), Ok(false)));
}

#[test]
fn find_device_takes_the_first_match_or_nothing() {
    let devices = vec![
        device("00:00:00:00:00:01", Some("a"), "m"),
        device("00:00:00:00:00:02", Some("b"), "m"),
        device("00:00:00:00:00:02", Some("c"), "m"),
    ];
    let found = find_device(devices.clone(), MacAddress::new(2)).unwrap();
    assert_eq!(found.name.as_deref(), Some("b"));
    assert!(find_device(devices, MacAddress::new(3)).is_none());
    assert!(find_device(vec![], MacAddress::new(3)).is_none());
}

#[test]
fn label_is_the_name_or_else_the_model() {
    let mut named = device("00:00:00:00:00:01", Some("Lobby"), "U7LR");
    named.create_device_label();
    assert_eq!(named.device_label, "Lobby");
    let mut unnamed = device("00:00:00:00:00:01", None, "U7LR");
    unnamed.create_device_label();
    assert_eq!(unnamed.device_label, "U7LR");
    assert_eq!(unnamed.site, "");
}

#[test]
fn commands_report_progress_only_where_it_is_due() {
    assert_eq!(SearchCommand::Login.progress(), None);
    assert_eq!(SearchCommand::PollCancel.progress(), None);
    assert_eq!(SearchCommand::ListSites.progress(), None);
    let fetch =
        SearchCommand::FetchDevices { site_index: 2, total_sites: 5, site_code: "x".to_string() };
    assert_eq!(fetch.progress(), Some(Progress { done: 2, total: 5 }));
    let found = SearchCommand::Finish { complete: true, outcome: Ok(None) };
    assert_eq!(found.progress(), Some(Progress { done: 1, total: 1 }));
    let stopped = SearchCommand::Finish { complete: false, outcome: Ok(None) };
    assert_eq!(stopped.progress(), None);
}

#[test]
fn default_request_is_empty() {
    let info = UnifiSearchInfo::default();
    assert_eq!(info.username, "");
    assert_eq!(info.password, "");
    assert_eq!(info.server_url, "");
    assert_eq!(info.mac_to_search.value(), 0);
    assert!(!info.accept_invalid_certs);
}

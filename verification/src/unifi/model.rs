//! The search as mathematics: its states, the events that drive it, the
//! commands it gives, and the one function that takes it from each state to
//! the next.

use vstd::prelude::*;
use vstd::utf8::encode_utf8;

use super::api::ApiErrorView;
use super::devices::{labelled, DeviceView, SiteView};

verus! {

/// A search request as plain values.
pub struct SearchInfoView {
    pub username: Seq<char>,
    pub password: Seq<char>,
    pub server_url: Seq<char>,
    pub mac_to_search: nat,
    pub accept_invalid_certs: bool,
}

/// What is left of a text once every byte of it has been overwritten with
/// zero: as many NUL characters as the text had bytes.
pub open spec fn erased_text(text: Seq<char>) -> Seq<char> {
    Seq::new(encode_utf8(text).len(), |i: int| '\0')
}

/// Whether a text holds nothing but NUL characters.
pub open spec fn is_erased(text: Seq<char>) -> bool {
    forall|i: int| 0 <= i < text.len() ==> text[i] == '\0'
}

/// Whether both credentials of a request hold nothing but NUL characters.
pub open spec fn credentials_erased(info: SearchInfoView) -> bool {
    is_erased(info.username) && is_erased(info.password)
}

/// The request with both credentials overwritten.
pub open spec fn with_credentials_erased(info: SearchInfoView) -> SearchInfoView {
    SearchInfoView {
        username: erased_text(info.username),
        password: erased_text(info.password),
        ..info
    }
}

/// Whether `i` is the place of the first device in `devices` with address
/// `mac`.
pub open spec fn is_first_match(devices: Seq<DeviceView>, mac: nat, i: int) -> bool {
    &&& 0 <= i < devices.len()
    &&& devices[i].mac == mac
    &&& forall|j: int| 0 <= j < i ==> devices[j].mac != mac
}

/// The first device in `devices` with address `mac`, if there is one.
pub open spec fn find_in(devices: Seq<DeviceView>, mac: nat) -> Option<DeviceView> {
    if exists|i: int| is_first_match(devices, mac, i) {
        Some(devices[choose|i: int| is_first_match(devices, mac, i)])
    } else {
        None
    }
}

/// The device that a search hands out: the one found, with its label filled
/// in and the name of the site it was found at.
pub open spec fn promoted(device: DeviceView, site: SiteView) -> DeviceView {
    DeviceView { site: site.desc, ..labelled(device) }
}

/// Where a search stands: which answer it is waiting for.
#[derive(Debug, Clone, Copy, PartialEq, Eq, Structural)]
pub enum SearchPhase {
    /// Nothing has been asked yet.
    Idle,
    /// The login has been asked for.
    AwaitingLogin,
    /// The cancellation signal is being looked for, before the sites are listed.
    AwaitingFirstPoll,
    /// The sites have been asked for.
    AwaitingSites,
    /// The cancellation signal is being looked for, before the next site.
    AwaitingSitePoll,
    /// The devices of the next site have been asked for.
    AwaitingDevices,
    /// The search has come to its outcome.
    Finished,
}

/// The state of a search as plain values.
pub struct SearchView {
    pub phase: SearchPhase,
    pub info: SearchInfoView,
    pub sites: Seq<SiteView>,
    pub index: nat,
}

/// What the outside world reports to a search, as plain values.
pub enum EventView {
    /// The search is to begin.
    Started,
    /// The login was tried, with this result.
    LoggedIn(Result<(), ApiErrorView>),
    /// The cancellation signal was looked for; `true` if it was there.
    CancelPolled(bool),
    /// The sites were asked for, with this result.
    SitesListed(Result<Seq<SiteView>, ApiErrorView>),
    /// The devices of the current site were asked for, with this result.
    DevicesFetched(Result<Seq<DeviceView>, ApiErrorView>),
}

/// What a search asks of the outside world next, as plain values.
pub enum CommandView {
    /// Log in with the credentials of the request.
    Login,
    /// Look for the cancellation signal.
    PollCancel,
    /// Ask for the sites.
    ListSites,
    /// Report that `site_index` of `total_sites` sites are done, then ask for
    /// the devices of the site `site_code`.
    FetchDevices { site_index: nat, total_sites: nat, site_code: Seq<char> },
    /// Stop, with this outcome; if `complete`, report first that all is done.
    Finish { complete: bool, outcome: Result<Option<DeviceView>, ApiErrorView> },
}

/// The share of the work that a command reports as done before it is carried
/// out, as a fraction: the sites dealt with out of all sites when the
/// devices of a site are asked for, the whole when a device was found.
pub open spec fn progress_of(command: CommandView) -> Option<(nat, nat)> {
    match command {
        CommandView::FetchDevices { site_index, total_sites, .. } => Some(
            (site_index, total_sites),
        ),
        CommandView::Finish { complete, .. } => if complete {
            Some((1, 1))
        } else {
            None
        },
        _ => None,
    }
}

/// Whether the fraction `a` is no more than the fraction `b`.
pub open spec fn no_more_than(a: (nat, nat), b: (nat, nat)) -> bool {
    a.0 * b.1 <= b.0 * a.1
}

/// The state in which a new search for `info` starts.
pub open spec fn initial(info: SearchInfoView) -> SearchView {
    SearchView { phase: SearchPhase::Idle, info, sites: Seq::empty(), index: 0 }
}

/// Whether `event` is the answer that a search in `phase` is waiting for.
pub open spec fn accepts(phase: SearchPhase, event: EventView) -> bool {
    match phase {
        SearchPhase::Idle => event is Started,
        SearchPhase::AwaitingLogin => event is LoggedIn,
        SearchPhase::AwaitingFirstPoll => event is CancelPolled,
        SearchPhase::AwaitingSites => event is SitesListed,
        SearchPhase::AwaitingSitePoll => event is CancelPolled,
        SearchPhase::AwaitingDevices => event is DevicesFetched,
        SearchPhase::Finished => false,
    }
}

/// What holds of every state that a search can be in: while a site is being
/// dealt with there is such a site, and from the moment the login has
/// returned the credentials are erased.
pub open spec fn inv(s: SearchView) -> bool {
    &&& (s.phase == SearchPhase::AwaitingSitePoll || s.phase == SearchPhase::AwaitingDevices)
        ==> s.index < s.sites.len()
    &&& (s.phase != SearchPhase::Idle && s.phase != SearchPhase::AwaitingLogin)
        ==> credentials_erased(s.info)
}

/// The end of a search, with its outcome.
pub open spec fn finish(
    s: SearchView,
    complete: bool,
    outcome: Result<Option<DeviceView>, ApiErrorView>,
) -> (SearchView, CommandView) {
    (
        SearchView { phase: SearchPhase::Finished, sites: Seq::empty(), index: 0, ..s },
        CommandView::Finish { complete, outcome },
    )
}

/// The turn to the site at `s.index`: a look for the cancellation signal if
/// there is such a site, the end of the search without a device if there is
/// none left.
pub open spec fn turn_to_site(s: SearchView) -> (SearchView, CommandView) {
    if s.index < s.sites.len() {
        (SearchView { phase: SearchPhase::AwaitingSitePoll, ..s }, CommandView::PollCancel)
    } else {
        finish(s, false, Ok(None))
    }
}

/// The state that follows `s` on `event`, and the command given on the way.
pub open spec fn next(s: SearchView, event: EventView) -> (SearchView, CommandView)
    recommends
        accepts(s.phase, event),
{
    match event {
        EventView::Started => (
            SearchView { phase: SearchPhase::AwaitingLogin, ..s },
            CommandView::Login,
        ),
        EventView::LoggedIn(result) => {
            let erased = SearchView { info: with_credentials_erased(s.info), ..s };
            match result {
                Ok(_) => (
                    SearchView { phase: SearchPhase::AwaitingFirstPoll, ..erased },
                    CommandView::PollCancel,
                ),
                Err(error) => finish(erased, false, Err(error)),
            }
        },
        EventView::CancelPolled(cancelled) => {
            if cancelled {
                finish(s, false, Ok(None))
            } else if s.phase == SearchPhase::AwaitingFirstPoll {
                (SearchView { phase: SearchPhase::AwaitingSites, ..s }, CommandView::ListSites)
            } else {
                (
                    SearchView { phase: SearchPhase::AwaitingDevices, ..s },
                    CommandView::FetchDevices {
                        site_index: s.index,
                        total_sites: s.sites.len(),
                        site_code: s.sites[s.index as int].code,
                    },
                )
            }
        },
        EventView::SitesListed(result) => match result {
            Ok(sites) => turn_to_site(SearchView { sites, index: 0, ..s }),
            Err(error) => finish(s, false, Err(error)),
        },
        EventView::DevicesFetched(result) => match result {
            Ok(devices) => match find_in(devices, s.info.mac_to_search) {
                Some(device) => finish(
                    s,
                    true,
                    Ok(Some(promoted(device, s.sites[s.index as int]))),
                ),
                None => turn_to_site(SearchView { index: s.index + 1, ..s }),
            },
            Err(error) => finish(s, false, Err(error)),
        },
    }
}

/// An erased text holds nothing but NUL characters.
pub proof fn lemma_erased_text_is_erased(text: Seq<char>)
    ensures
        is_erased(erased_text(text)),
        erased_text(text).len() == encode_utf8(text).len(),
{
}

/// A first match is the only first match.
pub proof fn lemma_first_match_is_unique(devices: Seq<DeviceView>, mac: nat, i: int, j: int)
    requires
        is_first_match(devices, mac, i),
        is_first_match(devices, mac, j),
    ensures
        i == j,
{
}

/// What `find_in` gives, said without a choice: the device at the first
/// matching place, or nothing where no device matches.
pub proof fn lemma_find_in(devices: Seq<DeviceView>, mac: nat)
    ensures
        match find_in(devices, mac) {
            Some(device) => exists|i: int|
                is_first_match(devices, mac, i) && device == devices[i],
            None => forall|j: int| 0 <= j < devices.len() ==> devices[j].mac != mac,
        },
{
    if exists|i: int| is_first_match(devices, mac, i) {
    } else {
        lemma_no_first_match_means_no_match(devices, mac, devices.len() as int);
    }
}

/// Where no place is a first match, no device matches.
proof fn lemma_no_first_match_means_no_match(devices: Seq<DeviceView>, mac: nat, n: int)
    requires
        !exists|i: int| is_first_match(devices, mac, i),
        0 <= n <= devices.len(),
    ensures
        forall|j: int| 0 <= j < n ==> devices[j].mac != mac,
    decreases n,
{
    if n > 0 {
        lemma_no_first_match_means_no_match(devices, mac, n - 1);
        if devices[n - 1].mac == mac {
            assert(is_first_match(devices, mac, n - 1));
        }
    }
}

/// Every step that a search accepts keeps what holds of every state.
pub proof fn lemma_next_keeps_inv(s: SearchView, event: EventView)
    requires
        inv(s),
        accepts(s.phase, event),
    ensures
        inv(next(s, event).0),
{
}

} // verus!

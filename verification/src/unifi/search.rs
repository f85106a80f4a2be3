//! The search engine: it decides, from each answer of the outside world,
//! what to ask next, and when the search is over.

use vstd::prelude::*;
use zeroize::Zeroize;

use super::api::{ApiErrorView, UnifiAPIError};
use super::devices::{DeviceView, SiteView, UnifiDeviceBasic, UnifiSite};
use super::model::{
    accepts, credentials_erased, erased_text, find_in, initial, inv, is_first_match,
    lemma_erased_text_is_erased, lemma_first_match_is_unique, lemma_next_keeps_inv, next,
    progress_of, turn_to_site, with_credentials_erased, CommandView, EventView, SearchInfoView, SearchPhase,
    SearchView,
};
use crate::mac_address::MacAddress;

verus! {

/// What a search needs to know: the credentials, where the controller is,
/// the address to look for, and whether certificates that do not validate
/// are accepted.
#[derive(Debug, Clone)]
pub struct UnifiSearchInfo {
    pub username: String,
    pub password: String,
    pub server_url: String,
    pub mac_to_search: MacAddress,
    pub accept_invalid_certs: bool,
}

impl DeepView for UnifiSearchInfo {
    type V = SearchInfoView;

    open spec fn deep_view(&self) -> SearchInfoView {
        SearchInfoView {
            username: self.username@,
            password: self.password@,
            server_url: self.server_url@,
            mac_to_search: self.mac_to_search@,
            accept_invalid_certs: self.accept_invalid_certs,
        }
    }
}

impl Default for UnifiSearchInfo {
    /// The empty request: no credentials, no URL, the zero address, and
    /// certificates that must validate.
    fn default() -> (info: UnifiSearchInfo)
        ensures
            info.deep_view() == (SearchInfoView {
                username: Seq::empty(),
                password: Seq::empty(),
                server_url: Seq::empty(),
                mac_to_search: 0,
                accept_invalid_certs: false,
            }),
    {
        UnifiSearchInfo {
            username: String::new(),
            password: String::new(),
            server_url: String::new(),
            mac_to_search: MacAddress::default(),
            accept_invalid_certs: false,
        }
    }
}

/// How a search ends: with the device, without one, or with a failure.
pub type UnifiSearchResult = Result<Option<UnifiDeviceBasic>, UnifiAPIError>;

/// The one thing that can be sent to a running search: the request to stop.
#[derive(Debug, Clone, Copy, PartialEq, Eq)]
pub struct CancelSignal;

/// Overwrites every byte of `text` with zero, in place, by `Zeroize::zeroize`
/// of the crate `zeroize` on the text as a `str`. The text keeps its length
/// in bytes, and each of its bytes is then a NUL character.
#[verifier::external_body]
fn erase(text: &mut String)
    ensures
        final(text)@ == erased_text(old(text)@),
{
    text.as_mut_str().zeroize();
}

/// Overwrites both credentials of a request with zeros; the rest of the
/// request stays as it is.
pub fn erase_credentials(info: &mut UnifiSearchInfo)
    ensures
        final(info).deep_view() == with_credentials_erased(old(info).deep_view()),
{
    erase(&mut info.password);
    erase(&mut info.username);
}

/// Says whether a look for the cancellation signal found it.
pub fn try_cancelled(polled: Option<CancelSignal>) -> (r: Result<bool, UnifiAPIError>)
    ensures
        r matches Ok(cancelled) && cancelled == (polled is Some),
{
    match polled {
        Some(_) => Ok(true),
        None => Ok(false),
    }
}

/// Picks the first device with address `mac` out of the devices of a site.
pub fn find_device(site_devices: Vec<UnifiDeviceBasic>, mac: MacAddress) -> (found: Option<
    UnifiDeviceBasic,
>)
    ensures
        found.deep_view() == find_in(site_devices.deep_view(), mac@),
{
    let mut candidates = site_devices;
    let ghost devices = site_devices.deep_view();
    let wanted: u64 = mac.value();
    let mut i: usize = 0;
    while i < candidates.len()
        invariant
            0 <= i <= candidates.len(),
            candidates@ == site_devices@,
            devices == site_devices.deep_view(),
            wanted == mac@,
            forall|j: int| 0 <= j < i ==> devices[j].mac != mac@,
        decreases candidates.len() - i,
    {
        if candidates[i].mac.value() == wanted {
            proof {
                assert(devices[i as int] == candidates@[i as int].deep_view());
                assert(is_first_match(devices, mac@, i as int));
                let chosen = choose|k: int| is_first_match(devices, mac@, k);
                lemma_first_match_is_unique(devices, mac@, i as int, chosen);
            }
            let device = candidates.swap_remove(i);
            return Some(device);
        }
        i += 1;
    }
    None
}

/// What the outside world reports to a search.
#[derive(Debug)]
pub enum SearchEvent {
    /// The search is to begin.
    Started,
    /// The login was tried, with this result.
    LoggedIn(Result<(), UnifiAPIError>),
    /// The cancellation signal was looked for, and this was found.
    CancelPolled(Option<CancelSignal>),
    /// The sites were asked for, with this result.
    SitesListed(Result<Vec<UnifiSite>, UnifiAPIError>),
    /// The devices of the current site were asked for, with this result.
    DevicesFetched(Result<Vec<UnifiDeviceBasic>, UnifiAPIError>),
}

impl View for SearchEvent {
    type V = EventView;

    open spec fn view(&self) -> EventView {
        match self {
            SearchEvent::Started => EventView::Started,
            SearchEvent::LoggedIn(result) => EventView::LoggedIn(
                match result {
                    Ok(_) => Ok(()),
                    Err(error) => Err(error.deep_view()),
                },
            ),
            SearchEvent::CancelPolled(polled) => EventView::CancelPolled(polled is Some),
            SearchEvent::SitesListed(result) => EventView::SitesListed(
                match result {
                    Ok(sites) => Ok(sites.deep_view()),
                    Err(error) => Err(error.deep_view()),
                },
            ),
            SearchEvent::DevicesFetched(result) => EventView::DevicesFetched(
                match result {
                    Ok(devices) => Ok(devices.deep_view()),
                    Err(error) => Err(error.deep_view()),
                },
            ),
        }
    }
}

/// The outcome of a search as plain values.
pub open spec fn outcome_view(outcome: UnifiSearchResult) -> Result<
    Option<DeviceView>,
    ApiErrorView,
> {
    match outcome {
        Ok(found) => Ok(found.deep_view()),
        Err(error) => Err(error.deep_view()),
    }
}

/// What a search asks of the outside world next.
#[derive(Debug)]
pub enum SearchCommand {
    /// Log in with the credentials of the request.
    Login,
    /// Look for the cancellation signal.
    PollCancel,
    /// Ask for the sites.
    ListSites,
    /// Report that `site_index` of `total_sites` sites are done, then ask for
    /// the devices of the site `site_code`.
    FetchDevices { site_index: usize, total_sites: usize, site_code: String },
    /// Stop, with this outcome; if `complete`, report first that all is done.
    Finish { complete: bool, outcome: UnifiSearchResult },
}

impl View for SearchCommand {
    type V = CommandView;

    open spec fn view(&self) -> CommandView {
        match self {
            SearchCommand::Login => CommandView::Login,
            SearchCommand::PollCancel => CommandView::PollCancel,
            SearchCommand::ListSites => CommandView::ListSites,
            SearchCommand::FetchDevices { site_index, total_sites, site_code } => {
                CommandView::FetchDevices {
                    site_index: *site_index as nat,
                    total_sites: *total_sites as nat,
                    site_code: site_code@,
                }
            },
            SearchCommand::Finish { complete, outcome } => CommandView::Finish {
                complete: *complete,
                outcome: outcome_view(*outcome),
            },
        }
    }
}

/// A report of progress: `done` of `total` parts of the work are done.
#[derive(Debug, Clone, Copy, PartialEq, Eq)]
pub struct Progress {
    pub done: usize,
    pub total: usize,
}

impl SearchCommand {
    /// The progress to report before the command is carried out, if the
    /// command comes with any: the sites dealt with out of all sites before
    /// the devices of a site are asked for, the whole when a device was found.
    pub fn progress(&self) -> (report: Option<Progress>)
        ensures
            match report {
                Some(p) => progress_of(self@) == Some((p.done as nat, p.total as nat)),
                None => progress_of(self@) is None,
            },
    {
        match self {
            SearchCommand::FetchDevices { site_index, total_sites, .. } => Some(
                Progress { done: *site_index, total: *total_sites },
            ),
            SearchCommand::Finish { complete, .. } => if *complete {
                Some(Progress { done: 1, total: 1 })
            } else {
                None
            },
            _ => None,
        }
    }
}

/// A search under way. It owns the request, so that nothing but the search
/// itself touches the credentials until they are erased.
#[derive(Debug)]
pub struct UnifiSearch {
    phase: SearchPhase,
    info: UnifiSearchInfo,
    sites: Vec<UnifiSite>,
    index: usize,
}

impl View for UnifiSearch {
    type V = SearchView;

    closed spec fn view(&self) -> SearchView {
        SearchView {
            phase: self.phase,
            info: self.info.deep_view(),
            sites: self.sites.deep_view(),
            index: self.index as nat,
        }
    }
}

impl UnifiSearch {
    #[verifier::type_invariant]
    spec fn well_formed(self) -> bool {
        inv(self@)
    }

    /// A search for `info` that has not begun.
    pub fn new(info: UnifiSearchInfo) -> (search: UnifiSearch)
        ensures
            search@ == initial(info.deep_view()),
    {
        let search = UnifiSearch { phase: SearchPhase::Idle, info, sites: Vec::new(), index: 0 };
        assert(search.sites.deep_view() =~= Seq::<SiteView>::empty());
        search
    }

    /// Which answer the search is waiting for.
    pub fn phase(&self) -> (phase: SearchPhase)
        ensures
            phase == self@.phase,
            inv(self@),
    {
        proof {
            use_type_invariant(self);
        }
        self.phase
    }

    /// The request of the search, as it is now.
    pub fn request(&self) -> (info: &UnifiSearchInfo)
        ensures
            info.deep_view() == self@.info,
            inv(self@),
    {
        proof {
            use_type_invariant(self);
        }
        &self.info
    }

    /// Ends the search and hands the request back.
    pub fn into_request(self) -> (info: UnifiSearchInfo)
        ensures
            info.deep_view() == self@.info,
            inv(self@),
    {
        proof {
            use_type_invariant(&self);
        }
        self.info
    }

    /// Whether `event` is the answer that the search is waiting for.
    pub fn expects(&self, event: &SearchEvent) -> (expected: bool)
        ensures
            expected == accepts(self@.phase, event@),
    {
        match self.phase {
            SearchPhase::Idle => matches!(event, SearchEvent::Started),
            SearchPhase::AwaitingLogin => matches!(event, SearchEvent::LoggedIn(_)),
            SearchPhase::AwaitingFirstPoll => matches!(event, SearchEvent::CancelPolled(_)),
            SearchPhase::AwaitingSites => matches!(event, SearchEvent::SitesListed(_)),
            SearchPhase::AwaitingSitePoll => matches!(event, SearchEvent::CancelPolled(_)),
            SearchPhase::AwaitingDevices => matches!(event, SearchEvent::DevicesFetched(_)),
            SearchPhase::Finished => false,
        }
    }
}

/// The end of a search with `outcome`: the state that keeps nothing but the
/// request, and the command to stop.
fn finished(info: UnifiSearchInfo, complete: bool, outcome: UnifiSearchResult) -> (end: (
    UnifiSearch,
    SearchCommand,
))
    requires
        credentials_erased(info.deep_view()),
    ensures
        end.0@ == (SearchView {
            phase: SearchPhase::Finished,
            info: info.deep_view(),
            sites: Seq::empty(),
            index: 0,
        }),
        end.1@ == (CommandView::Finish { complete, outcome: outcome_view(outcome) }),
{
    let search = UnifiSearch { phase: SearchPhase::Finished, info, sites: Vec::new(), index: 0 };
    assert(search.sites.deep_view() =~= Seq::<SiteView>::empty());
    (search, SearchCommand::Finish { complete, outcome })
}

/// The turn to the site at `index`: a look for the cancellation signal if
/// there is such a site, the end of the search without a device if not.
fn turned_to_site(info: UnifiSearchInfo, sites: Vec<UnifiSite>, index: usize) -> (turn: (
    UnifiSearch,
    SearchCommand,
))
    requires
        credentials_erased(info.deep_view()),
    ensures
        (turn.0@, turn.1@) == turn_to_site(
            SearchView {
                phase: SearchPhase::AwaitingSites,
                info: info.deep_view(),
                sites: sites.deep_view(),
                index: index as nat,
            },
        ),
{
    if index < sites.len() {
        (
            UnifiSearch { phase: SearchPhase::AwaitingSitePoll, info, sites, index },
            SearchCommand::PollCancel,
        )
    } else {
        finished(info, false, Ok(None))
    }
}

/// Takes a search one decision further: given the answer that the search was
/// waiting for, says what to ask next, or that the search is over and how.
///
/// The credentials are erased as soon as the login has returned, whatever it
/// returned. A failure from the controller ends the search with that
/// failure; the cancellation signal ends it without a device. The sites are
/// visited in the order in which they were listed, each after a look for the
/// signal, and the first device with the wanted address ends the search,
/// labelled and with the name of its site.
pub fn find_unifi_device(search: UnifiSearch, event: SearchEvent) -> (step: (
    UnifiSearch,
    SearchCommand,
))
    requires
        accepts(search@.phase, event@),
    ensures
        (step.0@, step.1@) == next(search@, event@),
        inv(step.0@),
{
    proof {
        use_type_invariant(&search);
        lemma_next_keeps_inv(search@, event@);
    }
    let UnifiSearch { phase, info, sites, index } = search;
    match event {
        SearchEvent::Started => (
            UnifiSearch { phase: SearchPhase::AwaitingLogin, info, sites, index },
            SearchCommand::Login,
        ),
        SearchEvent::LoggedIn(result) => {
            let mut info = info;
            erase_credentials(&mut info);
            proof {
                lemma_erased_text_is_erased(search@.info.username);
                lemma_erased_text_is_erased(search@.info.password);
            }
            match result {
                Ok(_) => (
                    UnifiSearch { phase: SearchPhase::AwaitingFirstPoll, info, sites, index },
                    SearchCommand::PollCancel,
                ),
                Err(error) => finished(info, false, Err(error)),
            }
        },
        SearchEvent::CancelPolled(polled) => {
            let cancelled = match try_cancelled(polled) {
                Ok(cancelled) => cancelled,
                Err(error) => {
                    return finished(info, false, Err(error));
                },
            };
            if cancelled {
                finished(info, false, Ok(None))
            } else if phase == SearchPhase::AwaitingFirstPoll {
                (
                    UnifiSearch { phase: SearchPhase::AwaitingSites, info, sites, index },
                    SearchCommand::ListSites,
                )
            } else {
                let total_sites = sites.len();
                let site_code = sites[index].code.clone();
                assert(sites.deep_view()[index as int] == sites@[index as int].deep_view());
                (
                    UnifiSearch { phase: SearchPhase::AwaitingDevices, info, sites, index },
                    SearchCommand::FetchDevices { site_index: index, total_sites, site_code },
                )
            }
        },
        SearchEvent::SitesListed(result) => match result {
            Ok(listed) => turned_to_site(info, listed, 0),
            Err(error) => finished(info, false, Err(error)),
        },
        SearchEvent::DevicesFetched(result) => match result {
            Ok(devices) => {
                assert(index < sites.len()) by {
                    assert(phase == SearchPhase::AwaitingDevices);
                    assert(search@.sites.len() == sites.len());
                }
                match find_device(devices, info.mac_to_search) {
                    Some(found) => {
                        let mut found = found;
                        let mut sites = sites;
                        assert(sites.deep_view()[index as int] == sites@[index as int].deep_view());
                        found.create_device_label();
                        let site = sites.swap_remove(index);
                        found.site = site.desc;
                        finished(info, true, Ok(Some(found)))
                    },
                    None => turned_to_site(info, sites, index + 1),
                }
            },
            Err(error) => finished(info, false, Err(error)),
        },
    }
}

} // verus!

//! What holds of every search, whatever the controller answers and whenever
//! the cancellation signal comes.

use vstd::prelude::*;

use super::api::ApiErrorView;
use super::devices::{DeviceView, SiteView};
use super::model::{
    accepts, credentials_erased, find_in, initial, inv, lemma_erased_text_is_erased,
    lemma_next_keeps_inv, next, no_more_than, progress_of, promoted, with_credentials_erased,
    CommandView, EventView,
    SearchInfoView, SearchPhase, SearchView,
};

verus! {

/// The outside world of one search: what the controller would answer to each
/// request, and at which looks the cancellation signal would be found.
pub struct World {
    /// The result of the login.
    pub login: Result<(), ApiErrorView>,
    /// The result of asking for the sites.
    pub sites: Result<Seq<SiteView>, ApiErrorView>,
    /// The result of asking for the devices of each site, by the site's place.
    pub devices: Seq<Result<Seq<DeviceView>, ApiErrorView>>,
    /// Whether each look for the cancellation signal finds it. Look 0 comes
    /// before the sites are listed, look `i + 1` before site `i` is visited.
    pub signal: Seq<bool>,
}

/// The result of asking for the devices of site `i`; a site that the world
/// says nothing of has no devices.
pub open spec fn devices_of(world: World, i: nat) -> Result<Seq<DeviceView>, ApiErrorView> {
    if i < world.devices.len() {
        world.devices[i as int]
    } else {
        Ok(Seq::empty())
    }
}

/// Whether look `k` finds the cancellation signal; a look that the world
/// says nothing of finds none.
pub open spec fn signalled(world: World, k: nat) -> bool {
    k < world.signal.len() && world.signal[k as int]
}

/// The answer of the world to what a search in state `s` is waiting for.
pub open spec fn answer(world: World, s: SearchView) -> EventView {
    match s.phase {
        SearchPhase::Idle => EventView::Started,
        SearchPhase::AwaitingLogin => EventView::LoggedIn(world.login),
        SearchPhase::AwaitingFirstPoll => EventView::CancelPolled(signalled(world, 0)),
        SearchPhase::AwaitingSites => EventView::SitesListed(world.sites),
        SearchPhase::AwaitingSitePoll => EventView::CancelPolled(signalled(world, s.index + 1)),
        SearchPhase::AwaitingDevices => EventView::DevicesFetched(devices_of(world, s.index)),
        SearchPhase::Finished => EventView::Started,
    }
}

/// A search from some state to its end: the commands it gave, in order, and
/// the state it ended in.
pub struct Run {
    pub commands: Seq<CommandView>,
    pub end: SearchView,
}

/// How many of the stages before the walk through the sites are still to come.
pub open spec fn stages_left(phase: SearchPhase) -> nat {
    match phase {
        SearchPhase::Idle => 4,
        SearchPhase::AwaitingLogin => 3,
        SearchPhase::AwaitingFirstPoll => 2,
        SearchPhase::AwaitingSites => 1,
        _ => 0,
    }
}

/// How many sites are still to be dealt with.
pub open spec fn sites_left(s: SearchView) -> nat {
    if s.index <= s.sites.len() {
        (s.sites.len() - s.index) as nat
    } else {
        0
    }
}

/// How many looks for the signal are still to come before the current site
/// is asked for.
pub open spec fn looks_left(phase: SearchPhase) -> nat {
    if phase == SearchPhase::AwaitingSitePoll {
        1
    } else {
        0
    }
}

/// The search from state `s` on, in `world`: each answer of the world is
/// handed to the search until the search is over.
pub open spec fn run(world: World, s: SearchView) -> Run
    decreases stages_left(s.phase), sites_left(s), looks_left(s.phase),
{
    if s.phase == SearchPhase::Finished || !inv(s) {
        Run { commands: Seq::empty(), end: s }
    } else {
        let step = next(s, answer(world, s));
        let rest = run(world, step.0);
        Run { commands: seq![step.1] + rest.commands, end: rest.end }
    }
}

/// The whole search for `info` in `world`.
pub open spec fn search(world: World, info: SearchInfoView) -> Run {
    run(world, initial(info))
}

/// The outcome that a sequence of commands ends with, if it ends with one.
pub open spec fn outcome_of(commands: Seq<CommandView>) -> Option<
    Result<Option<DeviceView>, ApiErrorView>,
> {
    if commands.len() > 0 && commands.last() is Finish {
        Some(commands.last()->outcome)
    } else {
        None
    }
}

/// The world always answers what the search is waiting for.
pub proof fn lemma_answer_is_accepted(world: World, s: SearchView)
    requires
        s.phase != SearchPhase::Finished,
    ensures
        accepts(s.phase, answer(world, s)),
{
}

/// One step of a search that is not over: the commands of the run are the
/// command of the step, then those of the run from the next state.
pub proof fn lemma_run_unfolds(world: World, s: SearchView)
    requires
        inv(s),
        s.phase != SearchPhase::Finished,
    ensures
        inv(next(s, answer(world, s)).0),
        run(world, s).commands == seq![next(s, answer(world, s)).1] + run(
            world,
            next(s, answer(world, s)).0,
        ).commands,
        run(world, s).end == run(world, next(s, answer(world, s)).0).end,
{
    lemma_answer_is_accepted(world, s);
    lemma_next_keeps_inv(s, answer(world, s));
}

/// Every search comes to an end, and to one only: its last command is the
/// one that stops it, and no command before that does. At the end the
/// credentials are erased.
pub proof fn lemma_run_ends(world: World, s: SearchView)
    requires
        inv(s),
        s.phase != SearchPhase::Finished,
    ensures
        run(world, s).end.phase == SearchPhase::Finished,
        inv(run(world, s).end),
        credentials_erased(run(world, s).end.info),
        run(world, s).commands.len() > 0,
        run(world, s).commands.last() is Finish,
        forall|j: int|
            0 <= j < run(world, s).commands.len() - 1 ==> !(run(world, s).commands[j] is Finish),
    decreases stages_left(s.phase), sites_left(s), looks_left(s.phase),
{
    lemma_run_unfolds(world, s);
    let step = next(s, answer(world, s));
    if step.0.phase != SearchPhase::Finished {
        lemma_run_ends(world, step.0);
        let rest = run(world, step.0).commands;
        let all = run(world, s).commands;
        assert(all.last() == rest.last());
        assert forall|j: int| 0 <= j < all.len() - 1 implies !(all[j] is Finish) by {
            if j > 0 {
                assert(all[j] == rest[j - 1]);
            }
        }
    } else {
        assert(run(world, step.0).commands =~= Seq::empty());
        assert(run(world, s).commands =~= seq![step.1]);
    }
}

/// The places of the sites whose devices a sequence of commands asks for, in
/// the order in which it asks.
pub open spec fn queried(commands: Seq<CommandView>) -> Seq<nat>
    decreases commands.len(),
{
    if commands.len() == 0 {
        Seq::empty()
    } else {
        let rest = queried(commands.drop_first());
        match commands[0] {
            CommandView::FetchDevices { site_index, .. } => seq![site_index] + rest,
            _ => rest,
        }
    }
}

/// The numbers from `from` up to, not including, `to`.
pub open spec fn places(from: nat, to: nat) -> Seq<nat> {
    Seq::new((to - from) as nat, |i: int| (from + i) as nat)
}

/// The commands of a visit to site `i`: a look for the signal, then the
/// request for the site's devices.
pub open spec fn visit(sites: Seq<SiteView>, i: nat) -> Seq<CommandView> {
    seq![
        CommandView::PollCancel,
        CommandView::FetchDevices {
            site_index: i,
            total_sites: sites.len(),
            site_code: sites[i as int].code,
        },
    ]
}

/// The commands of the visits to the sites from `from` up to, not
/// including, `to`, in order.
pub open spec fn visits(sites: Seq<SiteView>, from: nat, to: nat) -> Seq<CommandView>
    decreases to - from,
{
    if from >= to {
        Seq::empty()
    } else {
        visit(sites, from) + visits(sites, (from + 1) as nat, to)
    }
}

/// The commands with which every search that gets as far as the sites
/// begins: the login, the first look for the signal, the request for the
/// sites.
pub open spec fn opening() -> Seq<CommandView> {
    seq![CommandView::Login, CommandView::PollCancel, CommandView::ListSites]
}

/// The command that stops a search without a device.
pub open spec fn stop_without_device() -> CommandView {
    CommandView::Finish { complete: false, outcome: Ok(None) }
}

/// The command that stops a search with a failure.
pub open spec fn stop_with_failure(error: ApiErrorView) -> CommandView {
    CommandView::Finish { complete: false, outcome: Err(error) }
}

/// The command that stops a search with the device it found, after the
/// report that all is done.
pub open spec fn stop_with_device(device: DeviceView) -> CommandView {
    CommandView::Finish { complete: true, outcome: Ok(Some(device)) }
}

/// The state `s` with the search turned to the site at `index`.
pub open spec fn turned_to(s: SearchView, index: nat) -> SearchView {
    SearchView { index, ..s }
}

/// Whether the sites from `from` up to, not including, `to` are all visited
/// in `world` without an end to the search: no look before them finds the
/// signal, the controller lists the devices of each, and none of those has
/// the address `mac`.
pub open spec fn passed_over(world: World, mac: nat, from: nat, to: nat) -> bool {
    forall|i: nat|
        from <= i < to ==> !signalled(world, i + 1) && (#[trigger] devices_of(world, i) matches Ok(
            devices,
        ) && find_in(devices, mac) is None)
}

/// The sites asked for by two sequences of commands, one after the other.
pub proof fn lemma_queried_of_concatenation(a: Seq<CommandView>, b: Seq<CommandView>)
    ensures
        queried(a + b) == queried(a) + queried(b),
    decreases a.len(),
{
    if a.len() == 0 {
        assert(a + b =~= b);
        assert(queried(a) + queried(b) =~= queried(b));
    } else {
        assert((a + b).drop_first() =~= a.drop_first() + b);
        lemma_queried_of_concatenation(a.drop_first(), b);
        let rest = queried(a.drop_first());
        match a[0] {
            CommandView::FetchDevices { site_index, .. } => {
                assert((seq![site_index] + rest) + queried(b) =~= seq![site_index] + (rest
                    + queried(b)));
            },
            _ => {},
        }
    }
}

/// The visits to the sites from `from` to `to` ask for exactly those sites,
/// each once, in order.
pub proof fn lemma_queried_of_visits(sites: Seq<SiteView>, from: nat, to: nat)
    requires
        from <= to,
    ensures
        queried(visits(sites, from, to)) == places(from, to),
    decreases to - from,
{
    if from >= to {
        assert(places(from, to) =~= Seq::empty());
    } else {
        let first = visit(sites, from);
        let others = visits(sites, (from + 1) as nat, to);
        lemma_queried_of_visits(sites, (from + 1) as nat, to);
        lemma_queried_of_concatenation(first, others);
        reveal_with_fuel(queried, 3);
        assert(first.drop_first() =~= seq![first[1]]);
        assert(first.drop_first().drop_first() =~= Seq::empty());
        assert(queried(first) =~= seq![from]);
        assert(seq![from] + places((from + 1) as nat, to) =~= places(from, to));
    }
}

/// The walk through sites that are passed over. With the look that precedes
/// it, the run from the wait for the look before site `s.index` gives the
/// visits to the sites up to `to`, and then goes on as from the look before
/// site `to`, or stops without a device if `to` is past the last site.
pub proof fn lemma_walk_passes_over(world: World, s: SearchView, to: nat)
    requires
        inv(s),
        s.phase == SearchPhase::AwaitingSitePoll,
        s.index <= to <= s.sites.len(),
        passed_over(world, s.info.mac_to_search, s.index, to),
    ensures
        to < s.sites.len() ==> seq![CommandView::PollCancel] + run(world, s).commands == visits(
            s.sites,
            s.index,
            to,
        ) + (seq![CommandView::PollCancel] + run(world, turned_to(s, to)).commands),
        to == s.sites.len() ==> seq![CommandView::PollCancel] + run(world, s).commands == visits(
            s.sites,
            s.index,
            to,
        ) + seq![stop_without_device()],
    decreases to - s.index,
{
    let poll = seq![CommandView::PollCancel];
    if s.index == to {
        assert(turned_to(s, to) == s);
        assert(visits(s.sites, s.index, to) =~= Seq::empty());
        assert(visits(s.sites, s.index, to) + (poll + run(world, s).commands) =~= poll + run(
            world,
            s,
        ).commands);
    } else {
        let i = s.index;
        assert(!signalled(world, i + 1) && devices_of(world, i) is Ok);
        lemma_run_unfolds(world, s);
        let asked = next(s, answer(world, s));
        lemma_run_unfolds(world, asked.0);
        let turned = next(asked.0, answer(world, asked.0));
        let fetch = asked.1;
        assert(visit(s.sites, i) =~= poll + seq![fetch]);
        if i + 1 < s.sites.len() {
            let onward = turned_to(s, (i + 1) as nat);
            assert(turned.0 == onward);
            assert(turned.1 == CommandView::PollCancel);
            assert forall|j: nat| onward.index <= j < to implies !signalled(world, j + 1) && (
            #[trigger] devices_of(world, j) matches Ok(devices) && find_in(
                devices,
                s.info.mac_to_search,
            ) is None) by {}
            lemma_walk_passes_over(world, onward, to);
            assert(turned_to(onward, to) == turned_to(s, to));
            let tail = run(world, onward).commands;
            assert(poll + run(world, s).commands =~= visit(s.sites, i) + (poll + tail));
            if to < s.sites.len() {
                let after = poll + run(world, turned_to(s, to)).commands;
                assert(visit(s.sites, i) + (visits(s.sites, (i + 1) as nat, to) + after) =~= visits(
                    s.sites,
                    i,
                    to,
                ) + after);
            } else {
                let after = seq![stop_without_device()];
                assert(visit(s.sites, i) + (visits(s.sites, (i + 1) as nat, to) + after) =~= visits(
                    s.sites,
                    i,
                    to,
                ) + after);
            }
        } else {
            assert(to == s.sites.len());
            assert(turned.0.phase == SearchPhase::Finished);
            assert(turned.1 == stop_without_device());
            assert(run(world, turned.0).commands =~= Seq::empty());
            assert(visits(s.sites, (i + 1) as nat, to) =~= Seq::empty());
            assert(visits(s.sites, i, to) =~= visit(s.sites, i));
            assert(poll + run(world, s).commands =~= visits(s.sites, i, to) + seq![
                stop_without_device(),
            ]);
        }
    }
}

/// The state of a search for `info` that waits for the look before site
/// `index` of `sites`.
pub open spec fn before_site(info: SearchInfoView, sites: Seq<SiteView>, index: nat) -> SearchView {
    SearchView {
        phase: SearchPhase::AwaitingSitePoll,
        info: with_credentials_erased(info),
        sites,
        index,
    }
}

/// The state of a search for `info` that waits for the devices of site
/// `index` of `sites`.
pub open spec fn at_site(info: SearchInfoView, sites: Seq<SiteView>, index: nat) -> SearchView {
    SearchView {
        phase: SearchPhase::AwaitingDevices,
        info: with_credentials_erased(info),
        sites,
        index,
    }
}

/// A search whose login fails stops there, with that failure: it asks the
/// controller for nothing more, neither for the sites nor for any devices.
pub proof fn lemma_failed_login_ends_search(world: World, info: SearchInfoView, error: ApiErrorView)
    requires
        world.login == Err::<(), ApiErrorView>(error),
    ensures
        search(world, info).commands == seq![CommandView::Login, stop_with_failure(error)],
        outcome_of(search(world, info).commands) == Some(
            Err::<Option<DeviceView>, ApiErrorView>(error),
        ),
        queried(search(world, info).commands) == Seq::<nat>::empty(),
{
    let s0 = initial(info);
    lemma_run_unfolds(world, s0);
    let s1 = next(s0, answer(world, s0)).0;
    lemma_run_unfolds(world, s1);
    let s2 = next(s1, answer(world, s1)).0;
    assert(run(world, s2).commands =~= Seq::empty());
    let commands = search(world, info).commands;
    assert(commands =~= seq![CommandView::Login, stop_with_failure(error)]);
    reveal_with_fuel(queried, 3);
    assert(commands.drop_first().drop_first() =~= Seq::empty());
}

/// A search that finds the cancellation signal at its first look stops
/// there, without a device and without asking the controller for anything
/// after the login.
pub proof fn lemma_cancelled_at_first_look(world: World, info: SearchInfoView)
    requires
        world.login is Ok,
        signalled(world, 0),
    ensures
        search(world, info).commands == seq![
            CommandView::Login,
            CommandView::PollCancel,
            stop_without_device(),
        ],
        outcome_of(search(world, info).commands) == Some(
            Ok::<Option<DeviceView>, ApiErrorView>(None),
        ),
        queried(search(world, info).commands) == Seq::<nat>::empty(),
{
    let s0 = initial(info);
    lemma_run_unfolds(world, s0);
    let s1 = next(s0, answer(world, s0)).0;
    lemma_run_unfolds(world, s1);
    let s2 = next(s1, answer(world, s1)).0;
    lemma_erased_text_is_erased(info.username);
    lemma_erased_text_is_erased(info.password);
    lemma_run_unfolds(world, s2);
    let s3 = next(s2, answer(world, s2)).0;
    assert(run(world, s3).commands =~= Seq::empty());
    let commands = search(world, info).commands;
    assert(commands =~= seq![CommandView::Login, CommandView::PollCancel, stop_without_device()]);
    reveal_with_fuel(queried, 4);
    assert(commands.drop_first().drop_first().drop_first() =~= Seq::empty());
}

/// A search whose request for the sites fails stops there, with that
/// failure, and asks for no devices.
pub proof fn lemma_failed_listing_ends_search(
    world: World,
    info: SearchInfoView,
    error: ApiErrorView,
)
    requires
        world.login is Ok,
        !signalled(world, 0),
        world.sites == Err::<Seq<SiteView>, ApiErrorView>(error),
    ensures
        search(world, info).commands == opening() + seq![stop_with_failure(error)],
        outcome_of(search(world, info).commands) == Some(
            Err::<Option<DeviceView>, ApiErrorView>(error),
        ),
        queried(search(world, info).commands) == Seq::<nat>::empty(),
{
    let s0 = initial(info);
    lemma_run_unfolds(world, s0);
    let s1 = next(s0, answer(world, s0)).0;
    lemma_run_unfolds(world, s1);
    let s2 = next(s1, answer(world, s1)).0;
    lemma_erased_text_is_erased(info.username);
    lemma_erased_text_is_erased(info.password);
    lemma_run_unfolds(world, s2);
    let s3 = next(s2, answer(world, s2)).0;
    lemma_run_unfolds(world, s3);
    let s4 = next(s3, answer(world, s3)).0;
    assert(run(world, s4).commands =~= Seq::empty());
    let commands = search(world, info).commands;
    assert(commands =~= opening() + seq![stop_with_failure(error)]);
    reveal_with_fuel(queried, 5);
    assert(commands.drop_first().drop_first().drop_first().drop_first() =~= Seq::empty());
}

/// The way of a search to site `to`. Where the login succeeds, the first
/// look finds no signal, the controller lists `sites`, and the sites before
/// `to` are passed over, the search gives the opening commands, visits those
/// sites in order, and then goes on as from the look before site `to`, or
/// stops without a device if `to` is past the last site.
pub proof fn lemma_search_comes_to_site(
    world: World,
    info: SearchInfoView,
    sites: Seq<SiteView>,
    to: nat,
)
    requires
        world.login is Ok,
        !signalled(world, 0),
        world.sites == Ok::<Seq<SiteView>, ApiErrorView>(sites),
        to <= sites.len(),
        passed_over(world, info.mac_to_search, 0, to),
    ensures
        inv(before_site(info, sites, to)) || to == sites.len(),
        to < sites.len() ==> search(world, info).commands == opening() + visits(sites, 0, to) + (
        seq![CommandView::PollCancel] + run(world, before_site(info, sites, to)).commands),
        to == sites.len() ==> search(world, info).commands == opening() + visits(sites, 0, to)
            + seq![stop_without_device()],
{
    let s0 = initial(info);
    lemma_run_unfolds(world, s0);
    let s1 = next(s0, answer(world, s0)).0;
    lemma_run_unfolds(world, s1);
    let s2 = next(s1, answer(world, s1)).0;
    lemma_erased_text_is_erased(info.username);
    lemma_erased_text_is_erased(info.password);
    lemma_run_unfolds(world, s2);
    let s3 = next(s2, answer(world, s2)).0;
    lemma_run_unfolds(world, s3);
    let s4 = next(s3, answer(world, s3)).0;
    let commands = search(world, info).commands;
    if sites.len() == 0 {
        assert(run(world, s4).commands =~= Seq::empty());
        assert(visits(sites, 0, to) =~= Seq::empty());
        assert(commands =~= opening() + visits(sites, 0, to) + seq![stop_without_device()]);
    } else {
        let start = before_site(info, sites, 0);
        assert(s4 == start);
        let poll = seq![CommandView::PollCancel];
        assert(commands =~= opening() + (poll + run(world, start).commands));
        lemma_walk_passes_over(world, start, to);
        assert(turned_to(start, to) == before_site(info, sites, to));
        if to < sites.len() {
            let onward = poll + run(world, before_site(info, sites, to)).commands;
            assert(opening() + (visits(sites, 0, to) + onward) =~= opening() + visits(sites, 0, to)
                + onward);
        } else {
            let onward = seq![stop_without_device()];
            assert(opening() + (visits(sites, 0, to) + onward) =~= opening() + visits(sites, 0, to)
                + onward);
        }
    }
}

/// The sites that the opening commands and the visits to the sites before
/// `to` ask for: those sites, each once, in order.
pub proof fn lemma_queried_up_to(sites: Seq<SiteView>, to: nat, last: Seq<CommandView>)
    ensures
        queried(opening() + visits(sites, 0, to) + last) == places(0, to) + queried(last),
{
    lemma_queried_of_concatenation(opening() + visits(sites, 0, to), last);
    lemma_queried_of_concatenation(opening(), visits(sites, 0, to));
    lemma_queried_of_visits(sites, 0, to);
    reveal_with_fuel(queried, 4);
    assert(opening().drop_first().drop_first().drop_first() =~= Seq::empty());
    assert(queried(opening()) =~= Seq::<nat>::empty());
    assert(Seq::<nat>::empty() + places(0, to) =~= places(0, to));
}

/// A search for an address that no site holds: where nothing fails and no
/// signal comes, the search asks for the devices of every site exactly once,
/// in the order in which the sites were listed, and then stops without a
/// device.
pub proof fn lemma_search_without_match(world: World, info: SearchInfoView, sites: Seq<SiteView>)
    requires
        world.login is Ok,
        !signalled(world, 0),
        world.sites == Ok::<Seq<SiteView>, ApiErrorView>(sites),
        passed_over(world, info.mac_to_search, 0, sites.len()),
    ensures
        search(world, info).commands == opening() + visits(sites, 0, sites.len()) + seq![
            stop_without_device(),
        ],
        outcome_of(search(world, info).commands) == Some(
            Ok::<Option<DeviceView>, ApiErrorView>(None),
        ),
        queried(search(world, info).commands) == places(0, sites.len()),
{
    lemma_search_comes_to_site(world, info, sites, sites.len());
    lemma_queried_up_to(sites, sites.len(), seq![stop_without_device()]);
    reveal_with_fuel(queried, 2);
    assert(seq![stop_without_device()].drop_first() =~= Seq::empty());
    assert(places(0, sites.len()) + Seq::<nat>::empty() =~= places(0, sites.len()));
}

/// A search that is cancelled before site `j`: where the sites before `j`
/// were passed over and the look before site `j` finds the signal, the
/// search stops without a device, and has asked for the devices of the sites
/// before `j` only.
pub proof fn lemma_search_cancelled_before_site(
    world: World,
    info: SearchInfoView,
    sites: Seq<SiteView>,
    j: nat,
)
    requires
        world.login is Ok,
        !signalled(world, 0),
        world.sites == Ok::<Seq<SiteView>, ApiErrorView>(sites),
        j < sites.len(),
        passed_over(world, info.mac_to_search, 0, j),
        signalled(world, j + 1),
    ensures
        search(world, info).commands == opening() + visits(sites, 0, j) + seq![
            CommandView::PollCancel,
            stop_without_device(),
        ],
        outcome_of(search(world, info).commands) == Some(
            Ok::<Option<DeviceView>, ApiErrorView>(None),
        ),
        queried(search(world, info).commands) == places(0, j),
{
    lemma_search_comes_to_site(world, info, sites, j);
    let s = before_site(info, sites, j);
    lemma_run_unfolds(world, s);
    let stopped = next(s, answer(world, s));
    assert(run(world, stopped.0).commands =~= Seq::empty());
    let last = seq![CommandView::PollCancel, stop_without_device()];
    assert(seq![CommandView::PollCancel] + run(world, s).commands =~= last);
    lemma_queried_up_to(sites, j, last);
    reveal_with_fuel(queried, 3);
    assert(last.drop_first().drop_first() =~= Seq::empty());
    assert(places(0, j) + Seq::<nat>::empty() =~= places(0, j));
}

/// The way of a search into site `k`: where the sites before `k` were passed
/// over and the look before site `k` finds no signal, the search gives the
/// opening commands, visits the sites up to and with `k`, and then goes on
/// as from the wait for the devices of site `k`.
pub proof fn lemma_search_asks_site(
    world: World,
    info: SearchInfoView,
    sites: Seq<SiteView>,
    k: nat,
)
    requires
        world.login is Ok,
        !signalled(world, 0),
        world.sites == Ok::<Seq<SiteView>, ApiErrorView>(sites),
        k < sites.len(),
        passed_over(world, info.mac_to_search, 0, k),
        !signalled(world, k + 1),
    ensures
        inv(at_site(info, sites, k)),
        search(world, info).commands == opening() + visits(sites, 0, k + 1) + run(
            world,
            at_site(info, sites, k),
        ).commands,
{
    lemma_search_comes_to_site(world, info, sites, k);
    let s = before_site(info, sites, k);
    lemma_run_unfolds(world, s);
    let asked = next(s, answer(world, s));
    assert(asked.0 == at_site(info, sites, k));
    let rest = run(world, at_site(info, sites, k)).commands;
    assert(seq![CommandView::PollCancel] + run(world, s).commands =~= visit(sites, k) + rest);
    lemma_visits_end_with_last(sites, 0, k);
    assert(opening() + visits(sites, 0, k) + (visit(sites, k) + rest) =~= opening() + (visits(
        sites,
        0,
        k,
    ) + visit(sites, k)) + rest);
}

/// The visits to the sites from `from` up to and with `to` are those to the
/// sites before `to`, then the visit to site `to`.
pub proof fn lemma_visits_end_with_last(sites: Seq<SiteView>, from: nat, to: nat)
    requires
        from <= to,
    ensures
        visits(sites, from, to + 1) == visits(sites, from, to) + visit(sites, to),
    decreases to - from,
{
    if from == to {
        assert(visits(sites, (from + 1) as nat, to + 1) =~= Seq::empty());
        assert(visits(sites, from, to) =~= Seq::empty());
        assert(visits(sites, from, to + 1) =~= visit(sites, to));
        assert(visits(sites, from, to) + visit(sites, to) =~= visit(sites, to));
    } else {
        lemma_visits_end_with_last(sites, (from + 1) as nat, to);
        assert(visit(sites, from) + (visits(sites, (from + 1) as nat, to) + visit(sites, to))
            =~= (visit(sites, from) + visits(sites, (from + 1) as nat, to)) + visit(sites, to));
    }
}

/// A search for an address that site `k` holds: where the sites before `k`
/// were passed over, no signal comes before site `k`, and the first device
/// with the address among those of site `k` is `device`, the search hands
/// out that device, labelled and with the name of site `k`, after reporting
/// that all is done; it has asked for the devices of the sites up to and
/// with `k`, each once and in order, and of no site after `k`.
pub proof fn lemma_search_finds_device(
    world: World,
    info: SearchInfoView,
    sites: Seq<SiteView>,
    k: nat,
    device: DeviceView,
)
    requires
        world.login is Ok,
        !signalled(world, 0),
        world.sites == Ok::<Seq<SiteView>, ApiErrorView>(sites),
        k < sites.len(),
        passed_over(world, info.mac_to_search, 0, k),
        !signalled(world, k + 1),
        devices_of(world, k) matches Ok(devices) && find_in(devices, info.mac_to_search) == Some(
            device,
        ),
    ensures
        search(world, info).commands == opening() + visits(sites, 0, k + 1) + seq![
            stop_with_device(promoted(device, sites[k as int])),
        ],
        outcome_of(search(world, info).commands) == Some(
            Ok::<Option<DeviceView>, ApiErrorView>(Some(promoted(device, sites[k as int]))),
        ),
        progress_of(search(world, info).commands.last()) == Some((1nat, 1nat)),
        queried(search(world, info).commands) == places(0, k + 1),
{
    lemma_search_asks_site(world, info, sites, k);
    let s = at_site(info, sites, k);
    lemma_run_unfolds(world, s);
    let found = next(s, answer(world, s));
    assert(run(world, found.0).commands =~= Seq::empty());
    let last = seq![stop_with_device(promoted(device, sites[k as int]))];
    assert(run(world, s).commands =~= last);
    lemma_queried_up_to(sites, k + 1, last);
    reveal_with_fuel(queried, 2);
    assert(last.drop_first() =~= Seq::empty());
    assert(places(0, k + 1) + Seq::<nat>::empty() =~= places(0, k + 1));
}

/// A search whose request for the devices of site `k` fails stops there,
/// with that failure, and asks for the devices of no site after `k`.
pub proof fn lemma_failed_fetch_ends_search(
    world: World,
    info: SearchInfoView,
    sites: Seq<SiteView>,
    k: nat,
    error: ApiErrorView,
)
    requires
        world.login is Ok,
        !signalled(world, 0),
        world.sites == Ok::<Seq<SiteView>, ApiErrorView>(sites),
        k < sites.len(),
        passed_over(world, info.mac_to_search, 0, k),
        !signalled(world, k + 1),
        devices_of(world, k) == Err::<Seq<DeviceView>, ApiErrorView>(error),
    ensures
        search(world, info).commands == opening() + visits(sites, 0, k + 1) + seq![
            stop_with_failure(error),
        ],
        outcome_of(search(world, info).commands) == Some(
            Err::<Option<DeviceView>, ApiErrorView>(error),
        ),
        queried(search(world, info).commands) == places(0, k + 1),
{
    lemma_search_asks_site(world, info, sites, k);
    let s = at_site(info, sites, k);
    lemma_run_unfolds(world, s);
    let failed = next(s, answer(world, s));
    assert(run(world, failed.0).commands =~= Seq::empty());
    let last = seq![stop_with_failure(error)];
    assert(run(world, s).commands =~= last);
    lemma_queried_up_to(sites, k + 1, last);
    reveal_with_fuel(queried, 2);
    assert(last.drop_first() =~= Seq::empty());
    assert(places(0, k + 1) + Seq::<nat>::empty() =~= places(0, k + 1));
}

/// Whether each report of progress among `commands` is a fraction between
/// nothing and the whole, and none is less than one before it.
pub open spec fn progress_never_decreases(commands: Seq<CommandView>) -> bool {
    &&& forall|a: int|
        0 <= a < commands.len() ==> (#[trigger] progress_of(commands[a]) matches Some(p) ==> p.0
            <= p.1 && p.1 > 0)
    &&& forall|a: int, b: int|
        0 <= a < b < commands.len() ==> (#[trigger] progress_of(commands[a]) matches Some(p) ==> (
        #[trigger] progress_of(commands[b]) matches Some(q) ==> no_more_than(p, q)))
}

/// Whether the requests for devices among `commands` go up through the
/// sites: each asks for a site that there is, all agree on how many sites
/// there are, and each asks for a later site than the ones before it.
pub open spec fn goes_up(commands: Seq<CommandView>) -> bool {
    &&& forall|a: int|
        0 <= a < commands.len() ==> (#[trigger] commands[a] matches CommandView::FetchDevices {
            site_index,
            total_sites,
            ..
        } ==> site_index < total_sites)
    &&& forall|a: int, b: int|
        0 <= a < b < commands.len() ==> (#[trigger] commands[a] matches CommandView::FetchDevices {
            site_index: first,
            total_sites: first_total,
            ..
        } ==> (#[trigger] commands[b] matches CommandView::FetchDevices {
            site_index: second,
            total_sites: second_total,
            ..
        } ==> first < second && first_total == second_total))
}

/// Whether every request for devices among `commands` asks for a site from
/// `from` on, out of `total` sites.
pub open spec fn starts_at(commands: Seq<CommandView>, from: nat, total: nat) -> bool {
    forall|a: int|
        0 <= a < commands.len() ==> (#[trigger] commands[a] matches CommandView::FetchDevices {
            site_index,
            total_sites,
            ..
        } ==> from <= site_index && total_sites == total)
}

/// Whether every request for devices among `commands` asks for a site
/// before `j`.
pub open spec fn stays_before(commands: Seq<CommandView>, j: nat) -> bool {
    forall|a: int|
        0 <= a < commands.len() ==> (#[trigger] commands[a] matches CommandView::FetchDevices {
            site_index,
            ..
        } ==> site_index < j)
}

/// The first site that a search in state `s` can still ask for.
pub open spec fn next_site(s: SearchView) -> nat {
    if s.phase == SearchPhase::AwaitingDevices {
        s.index + 1
    } else {
        s.index
    }
}

/// Whether a search in state `s` is walking through the sites.
pub open spec fn walking(s: SearchView) -> bool {
    s.phase == SearchPhase::AwaitingSitePoll || s.phase == SearchPhase::AwaitingDevices
}

/// From every state, a search goes up through the sites; while it walks
/// through them, it asks for none that it has dealt with.
pub proof fn lemma_run_goes_up(world: World, s: SearchView)
    requires
        inv(s),
        s.phase != SearchPhase::Finished,
    ensures
        goes_up(run(world, s).commands),
        walking(s) ==> starts_at(run(world, s).commands, next_site(s), s.sites.len()),
    decreases stages_left(s.phase), sites_left(s), looks_left(s.phase),
{
    lemma_run_unfolds(world, s);
    let step = next(s, answer(world, s));
    let rest = run(world, step.0).commands;
    let all = run(world, s).commands;
    assert(all[0] == step.1);
    assert forall|a: int| 1 <= a < all.len() implies all[a] == rest[a - 1] by {}
    if step.0.phase != SearchPhase::Finished {
        lemma_run_goes_up(world, step.0);
        assert(walking(step.0) ==> starts_at(rest, next_site(step.0), step.0.sites.len()));
        assert(goes_up(all)) by {
            assert forall|a: int, b: int| 0 <= a < b < all.len() implies (
            #[trigger] all[a] matches CommandView::FetchDevices {
                site_index: first,
                total_sites: first_total,
                ..
            } ==> (#[trigger] all[b] matches CommandView::FetchDevices {
                site_index: second,
                total_sites: second_total,
                ..
            } ==> first < second && first_total == second_total)) by {
                assert(all[b] == rest[b - 1]);
                if a > 0 {
                    assert(all[a] == rest[a - 1]);
                }
            }
            assert forall|a: int| 0 <= a < all.len() implies (
            #[trigger] all[a] matches CommandView::FetchDevices {
                site_index,
                total_sites,
                ..
            } ==> site_index < total_sites) by {
                if a > 0 {
                    assert(all[a] == rest[a - 1]);
                }
            }
        }
        if walking(s) {
            assert forall|a: int| 0 <= a < all.len() implies (
            #[trigger] all[a] matches CommandView::FetchDevices {
                site_index,
                total_sites,
                ..
            } ==> next_site(s) <= site_index && total_sites == s.sites.len()) by {
                if a > 0 {
                    assert(all[a] == rest[a - 1]);
                }
            }
        }
    } else {
        assert(rest =~= Seq::empty());
        assert(all.len() == 1);
    }
}

/// In every search, whatever the controller answers and whenever the signal
/// comes, the reports of progress never go down: each is a fraction between
/// nothing and the whole, and none is less than one before it.
pub proof fn lemma_progress_never_decreases(world: World, info: SearchInfoView)
    ensures
        progress_never_decreases(search(world, info).commands),
{
    let all = search(world, info).commands;
    lemma_run_goes_up(world, initial(info));
    lemma_run_ends(world, initial(info));
    assert forall|a: int, b: int| 0 <= a < b < all.len() implies (#[trigger] progress_of(
        all[a],
    ) matches Some(p) ==> (#[trigger] progress_of(all[b]) matches Some(q) ==> no_more_than(
        p,
        q,
    ))) by {
        if progress_of(all[a]) is Some && progress_of(all[b]) is Some {
            assert(!(all[a] is Finish));
            let p = progress_of(all[a])->0;
            let q = progress_of(all[b])->0;
            assert(p.0 < p.1);
            if all[b] is Finish {
                assert(q == (1nat, 1nat));
                assert(p.0 * 1 <= 1 * p.1);
            } else {
                assert(p.0 < q.0 && p.1 == q.1);
                assert(p.0 * q.1 <= q.0 * p.1) by (nonlinear_arith)
                    requires
                        p.0 < q.0,
                        p.1 == q.1,
                ;
            }
        }
    }
}

/// From every state from which site `j` has not been asked for yet, a search
/// never asks for site `j` or a later one if the look before site `j` finds
/// the signal.
pub proof fn lemma_run_stops_at_signal(world: World, s: SearchView, j: nat)
    requires
        inv(s),
        s.phase != SearchPhase::Finished,
        signalled(world, j + 1),
        walking(s) ==> next_site(s) <= j,
    ensures
        stays_before(run(world, s).commands, j),
    decreases stages_left(s.phase), sites_left(s), looks_left(s.phase),
{
    lemma_run_unfolds(world, s);
    let step = next(s, answer(world, s));
    let rest = run(world, step.0).commands;
    let all = run(world, s).commands;
    assert(all[0] == step.1);
    if step.0.phase != SearchPhase::Finished {
        lemma_run_stops_at_signal(world, step.0, j);
        assert forall|a: int| 0 <= a < all.len() implies (
        #[trigger] all[a] matches CommandView::FetchDevices { site_index, .. } ==> site_index
            < j) by {
            if a > 0 {
                assert(all[a] == rest[a - 1]);
            }
        }
    } else {
        assert(rest =~= Seq::empty());
        assert(all.len() == 1);
    }
}

/// In every search, whatever the controller answers: if the look before site
/// `j` finds the cancellation signal, the devices of site `j` and of the
/// sites after it are never asked for.
pub proof fn lemma_no_site_asked_after_signal(world: World, info: SearchInfoView, j: nat)
    requires
        signalled(world, j + 1),
    ensures
        stays_before(search(world, info).commands, j),
{
    lemma_run_stops_at_signal(world, initial(info), j);
}

/// Once the login has returned, a search leaves the request as it is.
pub proof fn lemma_run_keeps_request(world: World, s: SearchView)
    requires
        inv(s),
        s.phase != SearchPhase::Idle,
        s.phase != SearchPhase::AwaitingLogin,
    ensures
        run(world, s).end.info == s.info,
    decreases stages_left(s.phase), sites_left(s), looks_left(s.phase),
{
    if s.phase != SearchPhase::Finished {
        lemma_run_unfolds(world, s);
        lemma_run_keeps_request(world, next(s, answer(world, s)).0);
    }
}

/// Every search ends with the credentials erased, whatever its outcome:
/// with a device, without one, cancelled, or with any failure. Each
/// credential then holds as many NUL characters as it had bytes, and the
/// rest of the request is as it was.
pub proof fn lemma_search_erases_credentials(world: World, info: SearchInfoView)
    ensures
        search(world, info).end.phase == SearchPhase::Finished,
        search(world, info).end.info == with_credentials_erased(info),
        credentials_erased(search(world, info).end.info),
{
    let s0 = initial(info);
    lemma_run_ends(world, s0);
    lemma_run_unfolds(world, s0);
    let s1 = next(s0, answer(world, s0)).0;
    lemma_run_unfolds(world, s1);
    let s2 = next(s1, answer(world, s1)).0;
    lemma_run_keeps_request(world, s2);
}

} // verus!

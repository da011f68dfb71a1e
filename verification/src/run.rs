//! A run from its settings to its report: the phases, and the step that an
//! event makes from one phase to the next.

use crate::config::{missing, resolves, Config, Settings};
use crate::deleter::{
    first_malformed, is_plan, lemma_settled_prefix, lemma_settled_update, plan, Deleter, Dispatch,
    Report, Slot,
};
use crate::exchange::{bearer, bearer_header, verdict_of, Method, Reply, Request};
use crate::lister::{list_request, outcome_of_list, read_list, Fatal, ListReply};
use crate::locator::{joined, url_serialization};
use crate::model::{DecodeError, ResponseData};
use vstd::prelude::*;

verus! {

/// Where a run stands.
#[derive(Debug)]
pub enum Run {
    /// Nothing resolved, nothing sent.
    Idle { limit: usize },
    /// The list request is out.
    Listing { config: Config, limit: usize },
    /// Deletions are out; at least one has no reply yet.
    Deleting(Deleter),
    /// The report was handed out.
    Reporting,
    /// The run is over.
    Done,
}

/// What happened outside.
#[derive(Debug)]
pub enum Event {
    /// The settings were read.
    Start(Settings),
    /// The list request was answered, or failed.
    Listed(ListReply),
    /// The delete request with this index was answered, or failed.
    Deleted { index: usize, reply: Reply },
    /// The report was shown.
    Reported,
}

/// What to do outside.
#[derive(Debug)]
pub enum Action {
    /// Send the list request.
    Fetch(Request),
    /// Send these delete requests, then wait for a reply to any request in
    /// flight. `advisory` is the status of the list response where that was no
    /// success.
    Launch { advisory: Option<u16>, batch: Vec<Dispatch> },
    /// Show the report.
    Report { advisory: Option<u16>, report: Report },
    /// Stop with this error.
    Abort(Fatal),
    /// Stop; the run is complete.
    Exit,
    /// The event does not belong to the phase; nothing has changed.
    Ignore,
}

/// The action asks for a request to be sent.
pub open spec fn sends(action: Action) -> bool {
    ||| action is Fetch
    ||| action matches Action::Launch { batch, .. } && batch@.len() > 0
}

/// The step from `Idle`: a missing setting or a malformed list address ends
/// the run; else the list request goes out.
pub open spec fn begins(limit: usize, s: Settings, next: Run, action: Action) -> bool {
    match missing(s) {
        Some(e) => next is Done && action == Action::Abort(Fatal::Config(e)),
        None => match url_serialization(s.base_url.unwrap()@ + s.query.unwrap()@) {
            None => next is Done && action == Action::Abort(
                Fatal::Decode(DecodeError::ListAddress),
            ),
            Some(url) => {
                &&& next matches Run::Listing { config, limit: l }
                &&& l == limit
                &&& resolves(s, config)
                &&& action matches Action::Fetch(request)
                &&& request.method == Method::Get
                &&& request.url@ == url
                &&& request.authorization@ == bearer(s.api_token.unwrap()@)
            },
        },
    }
}

/// What follows a decoded listing: a malformed delete address ends the run
/// before any deletion; an empty listing is reported at once; else the first
/// deletions go out, as many as the limit allows.
pub open spec fn opens(
    config: Config,
    limit: usize,
    ids: Seq<Seq<char>>,
    advisory: Option<u16>,
    next: Run,
    action: Action,
) -> bool {
    &&& forall|k: int| #[trigger]
        first_malformed(config.delete_base@, ids, k) ==> next is Done && action == Action::Abort(
            Fatal::Decode(DecodeError::DeleteAddress(k as usize)),
        )
    &&& (forall|i: int|
        0 <= i < ids.len() ==> url_serialization(joined(config.delete_base@, #[trigger] ids[i]))
            is Some) ==> if ids.len() == 0 {
        &&& next is Reporting
        &&& action matches Action::Report { advisory: a, report }
        &&& a == advisory
        &&& report.outcomes@.len() == 0
    } else {
        &&& next matches Run::Deleting(d)
        &&& is_plan(config.delete_base@, ids, d.plan@)
        &&& d.authorization@ == bearer(config.token@)
        &&& d.limit == if limit == 0 { 1 } else { limit as int }
        &&& d.settled == 0
        &&& d.launched == if ids.len() <= d.limit { ids.len() as int } else { d.limit as int }
        &&& forall|i: int|
            0 <= i < ids.len() ==> #[trigger] d.slots@[i] == if i < d.launched {
                Slot::InFlight
            } else {
                Slot::Pending
            }
        &&& action matches Action::Launch { advisory: a, batch }
        &&& a == advisory
        &&& batch@.len() == d.launched
        &&& forall|k: int|
            0 <= k < batch@.len() ==> (#[trigger] batch@[k]).index == k && d.request_at(
                k,
                batch@[k].request,
            )
    }
}

/// The step on a reply to a deletion: a reply that is not taken changes
/// nothing; the last reply yields the report; any other is recorded, and the
/// next deletions go out as far as the limit allows.
pub open spec fn advances(d: Deleter, index: usize, reply: Reply, next: Run, action: Action) -> bool {
    if !d.takes(index) {
        next == Run::Deleting(d) && action is Ignore
    } else if d.settled + 1 == d.plan@.len() {
        &&& next is Reporting
        &&& action matches Action::Report { advisory, report }
        &&& advisory is None
        &&& Deleter::is_report(
            d.plan@,
            d.slots@.update(index as int, Slot::Settled(verdict_of(reply))),
            report,
        )
    } else {
        &&& next matches Run::Deleting(e)
        &&& action matches Action::Launch { advisory, batch }
        &&& advisory is None
        &&& exists|mid: Deleter| #[trigger] d.settles(index, reply, mid) && mid.launches(e, batch@)
    }
}

impl Run {
    /// In the delete phase the bookkeeping is sound, a reply is outstanding,
    /// and nothing more can be sent within the limit.
    pub open spec fn wf(&self) -> bool {
        match *self {
            Run::Deleting(d) => d.wf() && !d.is_done() && d.launched == d.launch_target(),
            _ => true,
        }
    }

    /// `next` and `action` are what `event` makes of the run.
    pub open spec fn steps(&self, event: Event, next: Run, action: Action) -> bool {
        match (*self, event) {
            (Run::Idle { limit }, Event::Start(settings)) => begins(limit, settings, next, action),
            (Run::Listing { config, limit }, Event::Listed(reply)) => match outcome_of_list(reply) {
                Err(fatal) => next is Done && action == Action::Abort(fatal),
                Ok((listing, advisory)) => opens(config, limit, listing.ids, advisory, next, action),
            },
            (Run::Deleting(d), Event::Deleted { index, reply }) => advances(
                d,
                index,
                reply,
                next,
                action,
            ),
            (Run::Reporting, Event::Reported) => next is Done && action is Exit,
            _ => next == *self && action is Ignore,
        }
    }

    /// A run that has not begun, with the most requests it may have in flight
    /// at once.
    pub fn new(limit: usize) -> (run: Run)
        ensures
            run == (Run::Idle { limit }),
            run.wf(),
    {
        Run::Idle { limit }
    }

    /// Whether the run is well formed. It is after `new`, and `step` keeps it
    /// so; this is for a value that came another way.
    pub fn is_sound(&self) -> (b: bool)
        ensures
            b == self.wf(),
    {
        match self {
            Run::Deleting(d) => {
                if !d.is_sound() || d.finished() {
                    return false;
                }
                let room = d.limit - (d.launched - d.settled);
                room == 0 || d.launched == d.plan.len()
            },
            _ => true,
        }
    }

    /// Takes one event and says what to do next.
    pub fn step(self, event: Event) -> (r: (Run, Action))
        requires
            self.wf(),
        ensures
            r.0.wf(),
            self.steps(event, r.0, r.1),
    {
        match self {
            Run::Idle { limit } => match event {
                Event::Start(settings) => match Config::resolve(settings) {
                    Err(e) => (Run::Done, Action::Abort(Fatal::Config(e))),
                    Ok(config) => match list_request(&config) {
                        Err(e) => (Run::Done, Action::Abort(Fatal::Decode(e))),
                        Ok(request) => (Run::Listing { config, limit }, Action::Fetch(request)),
                    },
                },
                _ => (Run::Idle { limit }, Action::Ignore),
            },
            Run::Listing { config, limit } => match event {
                Event::Listed(reply) => match read_list(reply) {
                    Err(fatal) => (Run::Done, Action::Abort(fatal)),
                    Ok(listed) => Self::open(config, limit, listed.data, listed.advisory),
                },
                _ => (Run::Listing { config, limit }, Action::Ignore),
            },
            Run::Deleting(d) => match event {
                Event::Deleted { index, reply } => Self::advance(d, index, reply),
                _ => (Run::Deleting(d), Action::Ignore),
            },
            Run::Reporting => match event {
                Event::Reported => (Run::Done, Action::Exit),
                _ => (Run::Reporting, Action::Ignore),
            },
            Run::Done => (Run::Done, Action::Ignore),
        }
    }

    /// Enters the delete phase with a decoded listing.
    fn open(
        config: Config,
        limit: usize,
        data: ResponseData,
        advisory: Option<u16>,
    ) -> (r: (Run, Action))
        ensures
            r.0.wf(),
            opens(config, limit, data@.ids, advisory, r.0, r.1),
    {
        let ghost base = config.delete_base@;
        let ghost ids = data@.ids;
        match plan(&config, &data) {
            Err(e) => {
                (Run::Done, Action::Abort(Fatal::Decode(e)))
            },
            Ok(deletions) => {
                proof {
                    assert forall|k: int| #[trigger] first_malformed(base, ids, k) implies false by {
                        assert(deletions@[k].id@ == ids[k]);
                    }
                }
                let mut d = Deleter::new(deletions, bearer_header(config.token.as_str()), limit);
                match d.report() {
                    Some(report) => (Run::Reporting, Action::Report { advisory, report }),
                    None => {
                        let batch = d.launch();
                        (Run::Deleting(d), Action::Launch { advisory, batch })
                    },
                }
            },
        }
    }

    /// Records one reply in the delete phase.
    fn advance(d: Deleter, index: usize, reply: Reply) -> (r: (Run, Action))
        requires
            d.wf(),
            !d.is_done(),
            d.launched == d.launch_target(),
        ensures
            r.0.wf(),
            advances(d, index, reply, r.0, r.1),
    {
        let mut e = d;
        if !e.settle(index, reply) {
            return (Run::Deleting(e), Action::Ignore);
        }
        let ghost mid = e;
        match e.report() {
            Some(report) => (Run::Reporting, Action::Report { advisory: None, report }),
            None => {
                let batch = e.launch();
                (Run::Deleting(e), Action::Launch { advisory: None, batch })
            },
        }
    }
}

/// A run whose settings lack a required one ends at its first step, and that
/// step asks for no request: nothing is sent before the settings are resolved.
pub proof fn lemma_missing_setting_sends_nothing(
    limit: usize,
    s: Settings,
    next: Run,
    action: Action,
)
    requires
        missing(s) is Some,
        (Run::Idle { limit }).steps(Event::Start(s), next, action),
    ensures
        next is Done,
        action == Action::Abort(Fatal::Config(missing(s).unwrap())),
        !sends(action),
{
}

/// A run that is over stays over: no event makes it ask for anything.
pub proof fn lemma_done_is_final(event: Event, next: Run, action: Action)
    requires
        Run::Done.steps(event, next, action),
    ensures
        next is Done,
        action is Ignore,
        !sends(action),
{
}

/// A failed deletion is recorded and the run goes on: a reply that is taken
/// and is no success never aborts the run, and the verdict kept for its
/// deletion is the failure with its cause, in the next state or, for the last
/// reply, in the report.
pub proof fn lemma_failed_deletion_is_recorded(
    d: Deleter,
    index: usize,
    reply: Reply,
    next: Run,
    action: Action,
)
    requires
        d.wf(),
        d.takes(index),
        verdict_of(reply) is Failed,
        advances(d, index, reply, next, action),
    ensures
        !(action is Abort),
        !(next is Done),
        next matches Run::Deleting(e) ==> e.slots@[index as int] == Slot::Settled(verdict_of(reply)),
        action matches Action::Report { report, .. } ==> report.outcomes@[index as int].verdict
            == verdict_of(reply),
{
    if d.settled + 1 == d.plan@.len() {
        let report = action->Report_report;
        assert(report.outcomes@[index as int].id == d.plan@[index as int].id);
    } else {
        let e = next->Deleting_0;
        let batch = action->Launch_batch;
        let mid = choose|mid: Deleter| #[trigger] d.settles(index, reply, mid) && mid.launches(e, batch@);
        assert(!(d.slots@[index as int] is Pending));
        assert(e.slots@[index as int] == if mid.launched <= index < e.launched {
            Slot::InFlight
        } else {
            mid.slots@[index as int]
        });
    }
}

/// The report of a run covers every deletion of the plan: the step that
/// yields it comes with the last outstanding reply, when every deletion was
/// sent, and it holds one outcome for each.
pub proof fn lemma_report_covers_every_item(
    d: Deleter,
    index: usize,
    reply: Reply,
    next: Run,
    action: Action,
)
    requires
        d.wf(),
        advances(d, index, reply, next, action),
        action is Report,
    ensures
        d.launched == d.plan@.len(),
        d.settled + 1 == d.plan@.len(),
        action->Report_report.outcomes@.len() == d.plan@.len(),
{
    assert(d.takes(index));
    let slot = Slot::Settled(verdict_of(reply));
    lemma_settled_update(d.slots@, index as int, slot);
    lemma_settled_prefix(d.slots@.update(index as int, slot), d.launched as int);
}

} // verus!

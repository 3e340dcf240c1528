//! Running one step: what to send, and what to make of each answer.
//!
//! 1. The step's search is sent, to look for the resource in the API.
//! 2. The status of the answer, and then its body, decide what to do next.
//! 3. If the resource needs to be created, or to be modified, the step's
//!    follow-up for that is sent, where it has one.
//!
//! Sending is left to the caller: [`start`] and [`StepRun::advance`] say what
//! to send, and take what came back.
use crate::dependency::{entries_view, DependencyView, Entries, Resource, ResourceView};
use crate::dependency::resource_of;
use crate::effect::{effect_of_kind, EffectKind, Outcome, OutcomeView, RequestError};
use crate::effect::{RequestErrorView, StepEffect, StepEffectView, StepError, StepErrorView};
use crate::request_builder::{request_of, Request, RequestView};
use crate::step::{is_success, BodyKind, Check, CheckView, ResponseBody, ResponseBodyView};
use crate::step::StatusCheck;
use crate::steps::{check_status_spec, create_spec, deserialize_spec, expects_spec};
use crate::steps::{follow_up_entries_spec, follow_up_expects_spec, follow_up_request_spec};
use crate::steps::{modify_spec, search_method, search_spec, step_provides};
use crate::steps::{chain_keys, pending_of, PendingStepView};
use crate::steps::{Step, StepRequest, StepRequestView, StepView};
use vstd::prelude::*;

verus! {

/// What came back for a request.
#[derive(Debug, PartialEq, Eq)]
pub enum Event {
    /// A response: its status code, the URL that answered, and its body read
    /// in the shape that was asked for, or the reader's complaint.
    Response { status: u16, url: String, body: Result<ResponseBody, String> },
    /// No response: the transport's complaint.
    Failed(String),
}

/// What an [`Event`] says.
pub enum EventView {
    Response { status: u16, url: Seq<char>, body: Result<ResponseBodyView, Seq<char>> },
    Failed(Seq<char>),
}

impl View for Event {
    type V = EventView;

    open spec fn view(&self) -> EventView {
        match self {
            Event::Response { status, url, body } => EventView::Response {
                status: *status,
                url: url@,
                body: match body {
                    Ok(b) => Ok(b@),
                    Err(message) => Err(message@),
                },
            },
            Event::Failed(message) => EventView::Failed(message@),
        }
    }
}

/// A step that is being run: what it waits for.
#[derive(Debug, PartialEq, Eq)]
pub enum StepRun {
    /// The search was sent.
    Searching(Step),
    /// The follow-up that creates or modifies was sent; `effect` is what its
    /// success amounts to.
    FollowingUp { target: Resource, request: StepRequest, effect: EffectKind },
}

/// What a [`StepRun`] says.
pub enum StepRunView {
    Searching(StepView),
    FollowingUp { target: ResourceView, request: StepRequestView, effect: EffectKind },
}

impl View for StepRun {
    type V = StepRunView;

    open spec fn view(&self) -> StepRunView {
        match self {
            StepRun::Searching(step) => StepRunView::Searching(step@),
            StepRun::FollowingUp { target, request, effect } => StepRunView::FollowingUp {
                target: target@,
                request: request@,
                effect: *effect,
            },
        }
    }
}

/// What to do next with a step that is being run.
#[derive(Debug, PartialEq, Eq)]
pub enum Progress {
    /// Send the request, read the body of the response as `expects` says, and
    /// hand what came back to `run`.
    Send { run: StepRun, request: Request, expects: BodyKind },
    /// The step is over.
    Finish { outcome: Outcome, entries: Entries },
}

/// What a [`Progress`] says.
pub enum ProgressView {
    Send { run: StepRunView, request: RequestView, expects: BodyKind },
    Finish { outcome: OutcomeView, entries: Seq<(DependencyView, Seq<char>)> },
}

impl View for Progress {
    type V = ProgressView;

    open spec fn view(&self) -> ProgressView {
        match self {
            Progress::Send { run, request, expects } => ProgressView::Send {
                run: run@,
                request: request@,
                expects: *expects,
            },
            Progress::Finish { outcome, entries } => ProgressView::Finish {
                outcome: outcome@,
                entries: entries_view(entries@),
            },
        }
    }
}

/// The end of a step that failed: the error against the step's resource, and
/// no entries.
pub open spec fn failed(target: ResourceView, error: StepErrorView) -> ProgressView {
    ProgressView::Finish {
        outcome: OutcomeView { target, effect: StepEffectView::Error(error) },
        entries: Seq::empty(),
    }
}

/// The end of a step that did its work.
pub open spec fn succeeded(
    target: ResourceView,
    effect: EffectKind,
    entries: Seq<(DependencyView, Seq<char>)>,
) -> ProgressView {
    ProgressView::Finish {
        outcome: OutcomeView { target, effect: effect_of_kind(effect) },
        entries,
    }
}

/// What is said of a request whose URL cannot be made.
pub open spec fn malformed_url() -> Seq<char> {
    "malformed URL"@
}

/// The request is to be sent, and `run` waits for what comes back. Where the
/// URL of the request cannot be made, the step fails for want of transport.
pub open spec fn send(
    target: ResourceView,
    run: StepRunView,
    request: Option<RequestView>,
    expects: BodyKind,
) -> ProgressView {
    match request {
        Some(request) => ProgressView::Send { run, request, expects },
        None => failed(
            target,
            StepErrorView::Request(RequestErrorView::Transport(malformed_url())),
        ),
    }
}

/// What follows once a step knows how its resource stands.
///
/// A resource that is there and in order ends the step as `Unmodified`; one
/// that the search modified ends it as `Modified`. One that is missing, or
/// that needs modification, has the step's follow-up for that sent; a step
/// without such a follow-up fails, and its error carries the URL that
/// answered the search.
pub open spec fn after_check(step: StepView, url: Seq<char>, check: CheckView) -> ProgressView {
    let target = resource_of(step_provides(step)[0]);
    match check {
        CheckView::Exists(entries) => succeeded(target, EffectKind::Unmodified, entries),
        CheckView::Modified(entries) => succeeded(target, EffectKind::Modified, entries),
        CheckView::DoesNotExist => match create_spec(step) {
            Some(request) => send(
                target,
                StepRunView::FollowingUp { target, request, effect: EffectKind::Created },
                follow_up_request_spec(request),
                follow_up_expects_spec(request),
            ),
            None => failed(target, StepErrorView::Uncreatable(url)),
        },
        CheckView::NeedsModification => match modify_spec(step) {
            Some(request) => send(
                target,
                StepRunView::FollowingUp { target, request, effect: EffectKind::Modified },
                follow_up_request_spec(request),
                follow_up_expects_spec(request),
            ),
            None => failed(target, StepErrorView::Unmodifiable(url)),
        },
    }
}

/// What follows the answer to a step's search.
///
/// Without a response the step fails with the transport's complaint. A status
/// that the step takes for an error fails it with that status, the method of
/// the search and the URL that answered. A status that says that the resource
/// does not exist goes on as for a missing resource, whatever the body. With
/// any other status the body decides: one that could not be read fails the
/// step with the reader's complaint.
pub open spec fn after_search(step: StepView, event: EventView) -> ProgressView {
    let target = resource_of(step_provides(step)[0]);
    match event {
        EventView::Failed(message) => failed(
            target,
            StepErrorView::Request(RequestErrorView::Transport(message)),
        ),
        EventView::Response { status, url, body } => match check_status_spec(step, status) {
            StatusCheck::Error => failed(
                target,
                StepErrorView::Status { status, method: search_method(step), url },
            ),
            StatusCheck::DoesNotExist => after_check(step, url, CheckView::DoesNotExist),
            StatusCheck::Exists => match body {
                Err(message) => failed(target, StepErrorView::Deserialize(message)),
                Ok(body) => match deserialize_spec(step, body) {
                    Err(e) => failed(target, e),
                    Ok(check) => after_check(step, url, check),
                },
            },
        },
    }
}

/// What follows the answer to a step's follow-up.
///
/// Without a response, or with a status other than one of success, the step
/// fails with a request error. A body that could not be read fails it with
/// the reader's complaint. Otherwise the step ends with the effect that the
/// follow-up stands for and the entries that the body gives.
pub open spec fn after_follow_up(
    target: ResourceView,
    request: StepRequestView,
    effect: EffectKind,
    event: EventView,
) -> ProgressView {
    match event {
        EventView::Failed(message) => failed(
            target,
            StepErrorView::Request(RequestErrorView::Transport(message)),
        ),
        EventView::Response { status, url, body } => {
            if !is_success(status) {
                failed(target, StepErrorView::Request(RequestErrorView::Status { status, url }))
            } else {
                match body {
                    Err(message) => failed(target, StepErrorView::Deserialize(message)),
                    Ok(body) => match follow_up_entries_spec(request, body) {
                        Err(e) => failed(target, e),
                        Ok(entries) => succeeded(target, effect, entries),
                    },
                }
            }
        },
    }
}

/// What follows an answer, for a step that is being run.
pub open spec fn advance_spec(run: StepRunView, event: EventView) -> ProgressView {
    match run {
        StepRunView::Searching(step) => after_search(step, event),
        StepRunView::FollowingUp { target, request, effect } => after_follow_up(
            target,
            request,
            effect,
            event,
        ),
    }
}

/// Whether a step that is being run looks at the body of a response with
/// this status: after its search, where the status says that the resource
/// exists; after its follow-up, where the status is one of success.
pub open spec fn reads_body_spec(run: StepRunView, status: u16) -> bool {
    match run {
        StepRunView::Searching(step) => check_status_spec(step, status) == StatusCheck::Exists,
        StepRunView::FollowingUp { .. } => is_success(status),
    }
}

/// Where a step does not look at the body of a response, the body makes no
/// difference to what follows.
pub proof fn lemma_body_unread(
    run: StepRunView,
    status: u16,
    url: Seq<char>,
    a: Result<ResponseBodyView, Seq<char>>,
    b: Result<ResponseBodyView, Seq<char>>,
)
    requires
        !reads_body_spec(run, status),
    ensures
        advance_spec(run, EventView::Response { status, url, body: a }) == advance_spec(
            run,
            EventView::Response { status, url, body: b },
        ),
{
}

/// A step whose search finds the resource in order ends as `Unmodified`, with
/// the entries that the search gave.
pub proof fn lemma_found_is_unmodified(
    step: StepView,
    status: u16,
    url: Seq<char>,
    body: ResponseBodyView,
    entries: Seq<(DependencyView, Seq<char>)>,
)
    requires
        check_status_spec(step, status) == StatusCheck::Exists,
        deserialize_spec(step, body) == Ok::<CheckView, StepErrorView>(CheckView::Exists(entries)),
    ensures
        after_search(step, EventView::Response { status, url, body: Ok(body) }) == succeeded(
            resource_of(step_provides(step)[0]),
            EffectKind::Unmodified,
            entries,
        ),
{
}

/// A request that gets no response ends the step with the transport's
/// complaint as its error, and with no entries: whatever the step would have
/// handed in stays missing for the steps after it.
pub proof fn lemma_failed_request_ends_step(run: StepRunView, message: Seq<char>)
    ensures
        advance_spec(run, EventView::Failed(message)) matches ProgressView::Finish {
            outcome,
            entries,
        } && outcome.effect == StepEffectView::Error(
            StepErrorView::Request(RequestErrorView::Transport(message)),
        ) && entries.len() == 0,
{
}

/// The step that sets a user's email address ends as `Modified` where the
/// backend takes the new address.
pub proof fn lemma_email_drift_is_modified(
    task: crate::steps::UserTaskView,
    user_url: Seq<char>,
    auth_token: Seq<char>,
    status: u16,
    url: Seq<char>,
    body: ResponseBodyView,
)
    requires
        is_success(status),
        body is User,
    ensures
        advance_spec(
            StepRunView::Searching(StepView::UserSetEmail { task, user_url, auth_token }),
            EventView::Response { status, url, body: Ok(body) },
        ) matches ProgressView::Finish { outcome, .. } && outcome.effect
            == StepEffectView::Modified && outcome.target == ResourceView::User(task.username),
{
}

/// A step never ends with an unfulfilled dependency, and it hands out entries
/// only where it did its work.
pub proof fn lemma_step_ends(run: StepRunView, event: EventView)
    ensures
        advance_spec(run, event) matches ProgressView::Finish { outcome, entries } ==> {
            &&& !(outcome.effect is Unfulfilled)
            &&& outcome.effect is Error ==> entries.len() == 0
        },
{
}

/// The pending step that a run came from, without the values it resolved.
pub open spec fn origin(run: StepRunView) -> PendingStepView {
    match run {
        StepRunView::Searching(step) => pending_of(step),
        StepRunView::FollowingUp { request, .. } => match request {
            StepRequestView::CreateUser(t) => PendingStepView::UserExists(t),
            StepRequestView::AddPlugin { task, .. } => PendingStepView::PluginAddFromPeer(task),
        },
    }
}

/// A run that goes on came from the same pending step, and the entries that
/// a step hands out at its end carry keys of its own chain only: those that
/// the steps for the same user, or for the same plugin, pledge.
pub proof fn lemma_entries_in_chain(run: StepRunView, event: EventView)
    ensures
        advance_spec(run, event) matches ProgressView::Send { run: next, .. } ==> origin(next)
            == origin(run),
        advance_spec(run, event) matches ProgressView::Finish { entries, .. } ==> forall|i: int|
            0 <= i < entries.len() ==> chain_keys(origin(run)).contains((#[trigger] entries[i]).0),
{
    match advance_spec(run, event) {
        ProgressView::Finish { entries, .. } => {
            let chain = chain_keys(origin(run));
            assert forall|i: int| 0 <= i < entries.len() implies chain.contains(
                (#[trigger] entries[i]).0,
            ) by {
                let k = entries[i].0;
                if chain.len() == 1 {
                    assert(chain[0] == k);
                } else {
                    assert(chain[0] == k || chain[1] == k || chain[2] == k || chain[3] == k
                        || chain[4] == k);
                }
            }
        },
        _ => {},
    }
}

/// Has the request sent, or ends the step where there is none to send.
fn dispatch(target: Resource, run: StepRun, request: Option<Request>, expects: BodyKind) -> (progress:
    Progress)
    ensures
        progress@ == send(target@, run@, request_of(request), expects),
{
    match request {
        Some(request) => Progress::Send { run, request, expects },
        None => fail(
            target,
            StepError::Request(RequestError::Transport(String::from_str("malformed URL"))),
        ),
    }
}

/// The end of a step that failed.
fn fail(target: Resource, error: StepError) -> (progress: Progress)
    ensures
        progress@ == failed(target@, error@),
{
    let progress = Progress::Finish {
        outcome: Outcome { target, effect: StepEffect::Error(error) },
        entries: Vec::new(),
    };
    assert(entries_view(Seq::<crate::dependency::Entry>::empty()) =~= Seq::empty());
    progress
}

/// What follows once a step knows how its resource stands.
fn follow_check(step: Step, url: String, check: Check) -> (progress: Progress)
    ensures
        progress@ == after_check(step@, url@, check@),
{
    let target = step.target();
    match check {
        Check::Exists(entries) => Progress::Finish {
            outcome: Outcome { target, effect: StepEffect::from_kind(EffectKind::Unmodified) },
            entries,
        },
        Check::Modified(entries) => Progress::Finish {
            outcome: Outcome { target, effect: StepEffect::from_kind(EffectKind::Modified) },
            entries,
        },
        Check::DoesNotExist => match step.create() {
            Some(follow_up) => {
                let request = follow_up.request();
                let expects = follow_up.expects();
                let run = StepRun::FollowingUp {
                    target: target.clone(),
                    request: follow_up,
                    effect: EffectKind::Created,
                };
                dispatch(target, run, request, expects)
            },
            None => fail(target, StepError::Uncreatable(url)),
        },
        Check::NeedsModification => match step.modify() {
            Some(follow_up) => {
                let request = follow_up.request();
                let expects = follow_up.expects();
                let run = StepRun::FollowingUp {
                    target: target.clone(),
                    request: follow_up,
                    effect: EffectKind::Modified,
                };
                dispatch(target, run, request, expects)
            },
            None => fail(target, StepError::Unmodifiable(url)),
        },
    }
}

/// How a step begins: its search is to be sent. A step whose search has no
/// URL ends at once, with an error.
pub open spec fn start_spec(step: StepView) -> ProgressView {
    send(
        resource_of(step_provides(step)[0]),
        StepRunView::Searching(step),
        search_spec(step),
        expects_spec(step),
    )
}

/// Begins to run a step.
pub fn start(step: Step) -> (progress: Progress)
    ensures
        progress@ == start_spec(step@),
{
    let request = step.search();
    let expects = step.expects();
    let target = step.target();
    dispatch(target, StepRun::Searching(step), request, expects)
}

impl StepRun {
    /// Whether the step looks at the body of a response with this status.
    pub fn reads_body(&self, status: u16) -> (b: bool)
        ensures
            b == reads_body_spec(self@, status),
    {
        match self {
            StepRun::Searching(step) => match step.check_status(status) {
                StatusCheck::Exists => true,
                _ => false,
            },
            StepRun::FollowingUp { .. } => 200 <= status && status < 300,
        }
    }

    /// Takes what came back for the request that was sent last, and says what
    /// to do next.
    pub fn advance(self, event: Event) -> (progress: Progress)
        ensures
            progress@ == advance_spec(self@, event@),
    {
        match self {
            StepRun::Searching(step) => {
                match event {
                    Event::Failed(message) => fail(
                        step.target(),
                        StepError::Request(RequestError::Transport(message)),
                    ),
                    Event::Response { status, url, body } => {
                        match step.check_status(status) {
                            StatusCheck::Error => {
                                let method = step.method();
                                fail(step.target(), StepError::Status { status, method, url })
                            },
                            StatusCheck::DoesNotExist => follow_check(
                                step,
                                url,
                                Check::DoesNotExist,
                            ),
                            StatusCheck::Exists => {
                                match body {
                                    Err(message) => fail(
                                        step.target(),
                                        StepError::Deserialize(message),
                                    ),
                                    Ok(body) => {
                                        match step.deserialize(body) {
                                            Err(e) => fail(step.target(), e),
                                            Ok(check) => follow_check(step, url, check),
                                        }
                                    },
                                }
                            },
                        }
                    },
                }
            },
            StepRun::FollowingUp { target, request, effect } => {
                match event {
                    Event::Failed(message) => fail(
                        target,
                        StepError::Request(RequestError::Transport(message)),
                    ),
                    Event::Response { status, url, body } => {
                        if !(200 <= status && status < 300) {
                            fail(target, StepError::Request(RequestError::Status { status, url }))
                        } else {
                            match body {
                                Err(message) => fail(target, StepError::Deserialize(message)),
                                Ok(body) => {
                                    match request.deserialize(body) {
                                        Err(e) => fail(target, e),
                                        Ok(entries) => Progress::Finish {
                                            outcome: Outcome {
                                                target,
                                                effect: StepEffect::from_kind(effect),
                                            },
                                            entries,
                                        },
                                    }
                                },
                            }
                        }
                    },
                }
            },
        }
    }
}

} // verus!

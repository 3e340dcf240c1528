//! What a step did to the API, and what went wrong where it did nothing.
use crate::dependency::{Dependency, DependencyView, Resource, ResourceView};
use vstd::prelude::*;

verus! {

/// HTTP request method.
#[derive(Clone, Copy, Debug, PartialEq, Eq, Hash, Structural)]
pub enum Method {
    Get,
    Post,
    Put,
    Delete,
}

/// Why a request got no usable response.
#[derive(Debug, PartialEq, Eq)]
pub enum RequestError {
    /// The request was not answered: network failure, TLS failure, malformed
    /// URL. The text is the transport's own.
    Transport(String),
    /// A request that creates or modifies was answered with an error status.
    Status { status: u16, url: String },
}

/// What a [`RequestError`] says.
pub enum RequestErrorView {
    Transport(Seq<char>),
    Status { status: u16, url: Seq<char> },
}

impl View for RequestError {
    type V = RequestErrorView;

    open spec fn view(&self) -> RequestErrorView {
        match self {
            RequestError::Transport(message) => RequestErrorView::Transport(message@),
            RequestError::Status { status, url } => RequestErrorView::Status {
                status: *status,
                url: url@,
            },
        }
    }
}

impl Clone for RequestError {
    fn clone(&self) -> (copy: Self)
        ensures
            copy@ == self@,
    {
        match self {
            RequestError::Transport(message) => RequestError::Transport(message.clone()),
            RequestError::Status { status, url } => RequestError::Status {
                status: *status,
                url: url.clone(),
            },
        }
    }
}

/// Error executing a step.
#[derive(Debug, PartialEq, Eq)]
pub enum StepError {
    /// The resource does not exist, and the step has no request to create it.
    Uncreatable(String),
    /// The resource needs modification, and the step has no request to modify it.
    Unmodifiable(String),
    /// A request failed.
    Request(RequestError),
    /// The search was answered with a status that the step takes for an error.
    Status { status: u16, method: Method, url: String },
    /// The body of a response was not of the expected shape.
    Deserialize(String),
}

/// What a [`StepError`] says.
pub enum StepErrorView {
    Uncreatable(Seq<char>),
    Unmodifiable(Seq<char>),
    Request(RequestErrorView),
    Status { status: u16, method: Method, url: Seq<char> },
    Deserialize(Seq<char>),
}

impl View for StepError {
    type V = StepErrorView;

    open spec fn view(&self) -> StepErrorView {
        match self {
            StepError::Uncreatable(url) => StepErrorView::Uncreatable(url@),
            StepError::Unmodifiable(url) => StepErrorView::Unmodifiable(url@),
            StepError::Request(e) => StepErrorView::Request(e@),
            StepError::Status { status, method, url } => StepErrorView::Status {
                status: *status,
                method: *method,
                url: url@,
            },
            StepError::Deserialize(message) => StepErrorView::Deserialize(message@),
        }
    }
}

impl Clone for StepError {
    fn clone(&self) -> (copy: Self)
        ensures
            copy@ == self@,
    {
        match self {
            StepError::Uncreatable(url) => StepError::Uncreatable(url.clone()),
            StepError::Unmodifiable(url) => StepError::Unmodifiable(url.clone()),
            StepError::Request(e) => StepError::Request(e.clone()),
            StepError::Status { status, method, url } => StepError::Status {
                status: *status,
                method: *method,
                url: url.clone(),
            },
            StepError::Deserialize(message) => StepError::Deserialize(message.clone()),
        }
    }
}

/// Possible effects of a successful step.
#[derive(Clone, Copy, Debug, PartialEq, Eq, Structural)]
pub enum EffectKind {
    /// The resource was created.
    Created,
    /// The resource exists and is correct.
    Unmodified,
    /// The resource exists and was modified.
    Modified,
}

/// Kinds of effects which can happen to the API state after trying a step.
#[derive(Debug, PartialEq, Eq)]
pub enum StepEffect {
    /// A resource was created.
    Created,
    /// A resource was found.
    Unmodified,
    /// A resource was modified.
    Modified,
    /// The step was not performed because of an unfulfilled dependency.
    Unfulfilled(Dependency),
    /// The step produced an error.
    Error(StepError),
}

/// What a [`StepEffect`] says.
pub enum StepEffectView {
    Created,
    Unmodified,
    Modified,
    Unfulfilled(DependencyView),
    Error(StepErrorView),
}

impl View for StepEffect {
    type V = StepEffectView;

    open spec fn view(&self) -> StepEffectView {
        match self {
            StepEffect::Created => StepEffectView::Created,
            StepEffect::Unmodified => StepEffectView::Unmodified,
            StepEffect::Modified => StepEffectView::Modified,
            StepEffect::Unfulfilled(k) => StepEffectView::Unfulfilled(k@),
            StepEffect::Error(e) => StepEffectView::Error(e@),
        }
    }
}

/// The effect of a successful step of the given kind.
pub open spec fn effect_of_kind(kind: EffectKind) -> StepEffectView {
    match kind {
        EffectKind::Created => StepEffectView::Created,
        EffectKind::Unmodified => StepEffectView::Unmodified,
        EffectKind::Modified => StepEffectView::Modified,
    }
}

/// The effect is one of a step that did its work.
pub open spec fn effect_ok(effect: StepEffectView) -> bool {
    effect is Created || effect is Unmodified || effect is Modified
}

impl StepEffect {
    /// The effect of a successful step of the given kind.
    pub fn from_kind(kind: EffectKind) -> (effect: StepEffect)
        ensures
            effect@ == effect_of_kind(kind),
    {
        match kind {
            EffectKind::Created => StepEffect::Created,
            EffectKind::Unmodified => StepEffect::Unmodified,
            EffectKind::Modified => StepEffect::Modified,
        }
    }

    /// Returns `true` if the effect is one of a step that did its work.
    pub fn ok(&self) -> (b: bool)
        ensures
            b == effect_ok(self@),
    {
        match self {
            StepEffect::Created => true,
            StepEffect::Unmodified => true,
            StepEffect::Modified => true,
            _ => false,
        }
    }
}

impl Clone for StepEffect {
    fn clone(&self) -> (copy: Self)
        ensures
            copy@ == self@,
    {
        match self {
            StepEffect::Created => StepEffect::Created,
            StepEffect::Unmodified => StepEffect::Unmodified,
            StepEffect::Modified => StepEffect::Modified,
            StepEffect::Unfulfilled(k) => StepEffect::Unfulfilled(k.clone()),
            StepEffect::Error(e) => StepEffect::Error(e.clone()),
        }
    }
}

/// Outcome of running a step.
#[derive(Debug, PartialEq, Eq)]
pub struct Outcome {
    /// Affected API resource.
    pub target: Resource,
    /// Step effect.
    pub effect: StepEffect,
}

/// What an [`Outcome`] says.
pub struct OutcomeView {
    pub target: ResourceView,
    pub effect: StepEffectView,
}

impl View for Outcome {
    type V = OutcomeView;

    open spec fn view(&self) -> OutcomeView {
        OutcomeView { target: self.target@, effect: self.effect@ }
    }
}

impl Outcome {
    /// Returns `true` if the effect is OK.
    pub fn ok(&self) -> (b: bool)
        ensures
            b == effect_ok(self@.effect),
    {
        self.effect.ok()
    }
}

impl Clone for Outcome {
    fn clone(&self) -> (copy: Self)
        ensures
            copy@ == self@,
    {
        Outcome { target: self.target.clone(), effect: self.effect.clone() }
    }
}

} // verus!

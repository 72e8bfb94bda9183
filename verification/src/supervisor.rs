//! The decisions of the supervisor: what each event asks of the builder.

use vstd::prelude::*;

verus! {

/// What reaches the supervisor.
#[derive(Debug)]
pub enum Event {
    /// A file below the source directory of this image has changed.
    SourceChanged(String),
    /// End the work in good order.
    Shutdown,
}

/// Whether changed images are only built, or built and run.
#[derive(Debug, PartialEq, Eq, Structural, Clone, Copy)]
pub enum Mode {
    BuildOnly,
    Run,
}

/// What the supervisor asks of the builder.
#[derive(Debug)]
pub enum Request {
    /// Build this image and what depends on it.
    Build(String),
    /// Run this image and what depends on it.
    Run(String),
    /// Stop and remove the registered containers.
    StopAll,
}

/// Model of a [`Request`].
pub enum RequestModel {
    Build(Seq<char>),
    Run(Seq<char>),
    StopAll,
}

impl View for Request {
    type V = RequestModel;

    open spec fn view(&self) -> RequestModel {
        match *self {
            Request::Build(name) => RequestModel::Build(name@),
            Request::Run(name) => RequestModel::Run(name@),
            Request::StopAll => RequestModel::StopAll,
        }
    }
}

impl DeepView for Request {
    type V = RequestModel;

    open spec fn deep_view(&self) -> RequestModel {
        self@
    }
}

/// How the supervisor answers one event: the requests to make of the
/// builder, in order, each made whatever became of the one before, and
/// whether the supervisor then leaves its loop.
#[derive(Debug)]
pub struct Reaction {
    pub requests: Vec<Request>,
    pub leave: bool,
}

/// The requests that answer a change of the image `name`.
pub open spec fn rebuild_requests(mode: Mode, name: Seq<char>) -> Seq<RequestModel> {
    match mode {
        Mode::BuildOnly => seq![RequestModel::Build(name)],
        Mode::Run => seq![RequestModel::Build(name), RequestModel::Run(name)],
    }
}

/// The supervisor's answer to `event`: a changed image is built and, in
/// run mode, run after that; a shutdown stops the containers and ends the
/// loop.
pub fn react(mode: Mode, event: Event) -> (reaction: Reaction)
    ensures
        event matches Event::SourceChanged(name) ==> !reaction.leave
            && reaction.requests.deep_view() == rebuild_requests(mode, name@),
        event is Shutdown ==> reaction.leave && reaction.requests.deep_view() == seq![
            RequestModel::StopAll,
        ],
{
    let mut requests: Vec<Request> = Vec::new();
    match event {
        Event::Shutdown => {
            requests.push(Request::StopAll);
            assert(requests.deep_view() =~= seq![RequestModel::StopAll]);
            Reaction { requests, leave: true }
        },
        Event::SourceChanged(image_name) => {
            let ghost name = image_name@;
            match mode {
                Mode::BuildOnly => {
                    requests.push(Request::Build(image_name));
                },
                Mode::Run => {
                    requests.push(Request::Build(image_name.clone()));
                    requests.push(Request::Run(image_name));
                },
            }
            assert(requests.deep_view() =~= rebuild_requests(mode, name));
            Reaction { requests, leave: false }
        },
    }
}

} // verus!

//! The request-inspection sidecar's decisions.
//!
//! The data plane streams processing events to a sidecar that tells it how
//! to treat each request: buffer JSON request bodies, read the `model` out
//! of a buffered body, and surface it as a header the per-model routes can
//! match on.  This module decides; the gRPC shell around it decodes the
//! stream and encodes the answers.

use vstd::prelude::*;
use crate::aggregate::copy_bytes;

verus! {

broadcast use crate::views::lemma_bytes_deep_view;

/// One decoded processing event: which phase the data plane is asking
/// about, with the one field of it the decision reads.
pub enum ProcessingEvent {
    /// Request headers, and whether they declare a JSON body.
    RequestHeaders { content_type_json: bool },
    ResponseHeaders,
    /// A buffered request body, and the `model` its JSON carried, if any.
    RequestBody { model: Option<Vec<u8>> },
    ResponseBody,
    RequestTrailers,
    ResponseTrailers,
    /// A frame carrying no request.
    Empty,
}

/// Mathematical value of a [`ProcessingEvent`].
pub ghost enum ProcessingEventV {
    RequestHeaders { content_type_json: bool },
    ResponseHeaders,
    RequestBody { model: Option<Seq<u8>> },
    ResponseBody,
    RequestTrailers,
    ResponseTrailers,
    Empty,
}

impl DeepView for ProcessingEvent {
    type V = ProcessingEventV;

    open spec fn deep_view(&self) -> ProcessingEventV {
        match self {
            ProcessingEvent::RequestHeaders { content_type_json } => {
                ProcessingEventV::RequestHeaders { content_type_json: *content_type_json }
            },
            ProcessingEvent::ResponseHeaders => ProcessingEventV::ResponseHeaders,
            ProcessingEvent::RequestBody { model } => ProcessingEventV::RequestBody {
                model: match model {
                    Some(m) => Some(m.deep_view()),
                    None => None,
                },
            },
            ProcessingEvent::ResponseBody => ProcessingEventV::ResponseBody,
            ProcessingEvent::RequestTrailers => ProcessingEventV::RequestTrailers,
            ProcessingEvent::ResponseTrailers => ProcessingEventV::ResponseTrailers,
            ProcessingEvent::Empty => ProcessingEventV::Empty,
        }
    }
}

/// The answer to one processing event.
pub enum ProcessingAction {
    /// Answer the request-headers phase; when `buffer_body` the data plane
    /// is told to buffer and resubmit the request body.
    RequestHeaders { buffer_body: bool },
    ResponseHeaders,
    /// Answer the request-body phase; when a model was read, set the model
    /// header to it and clear the route cache so the new header is matched.
    RequestBody { set_model_header: Option<Vec<u8>>, clear_route_cache: bool },
    ResponseBody,
    RequestTrailers,
    ResponseTrailers,
    /// Nothing to answer.
    NoResponse,
}

/// Mathematical value of a [`ProcessingAction`].
pub ghost enum ProcessingActionV {
    RequestHeaders { buffer_body: bool },
    ResponseHeaders,
    RequestBody { set_model_header: Option<Seq<u8>>, clear_route_cache: bool },
    ResponseBody,
    RequestTrailers,
    ResponseTrailers,
    NoResponse,
}

impl DeepView for ProcessingAction {
    type V = ProcessingActionV;

    open spec fn deep_view(&self) -> ProcessingActionV {
        match self {
            ProcessingAction::RequestHeaders { buffer_body } => {
                ProcessingActionV::RequestHeaders { buffer_body: *buffer_body }
            },
            ProcessingAction::ResponseHeaders => ProcessingActionV::ResponseHeaders,
            ProcessingAction::RequestBody { set_model_header, clear_route_cache } => {
                ProcessingActionV::RequestBody {
                    set_model_header: match set_model_header {
                        Some(m) => Some(m.deep_view()),
                        None => None,
                    },
                    clear_route_cache: *clear_route_cache,
                }
            },
            ProcessingAction::ResponseBody => ProcessingActionV::ResponseBody,
            ProcessingAction::RequestTrailers => ProcessingActionV::RequestTrailers,
            ProcessingAction::ResponseTrailers => ProcessingActionV::ResponseTrailers,
            ProcessingAction::NoResponse => ProcessingActionV::NoResponse,
        }
    }
}

/// What the sidecar answers to each event: every phase is acknowledged;
/// JSON request headers ask for the body to be buffered; a body whose JSON
/// named a model sets the model header and clears the route cache.
pub open spec fn spec_process(e: ProcessingEventV) -> ProcessingActionV {
    match e {
        ProcessingEventV::RequestHeaders { content_type_json } => {
            ProcessingActionV::RequestHeaders { buffer_body: content_type_json }
        },
        ProcessingEventV::ResponseHeaders => ProcessingActionV::ResponseHeaders,
        ProcessingEventV::RequestBody { model } => ProcessingActionV::RequestBody {
            set_model_header: model,
            clear_route_cache: model is Some,
        },
        ProcessingEventV::ResponseBody => ProcessingActionV::ResponseBody,
        ProcessingEventV::RequestTrailers => ProcessingActionV::RequestTrailers,
        ProcessingEventV::ResponseTrailers => ProcessingActionV::ResponseTrailers,
        ProcessingEventV::Empty => ProcessingActionV::NoResponse,
    }
}

/// Decides one processing event.
pub fn process_decision(event: &ProcessingEvent) -> (r: ProcessingAction)
    ensures
        r.deep_view() == spec_process(event.deep_view()),
{
    match event {
        ProcessingEvent::RequestHeaders { content_type_json } => {
            ProcessingAction::RequestHeaders { buffer_body: *content_type_json }
        },
        ProcessingEvent::ResponseHeaders => ProcessingAction::ResponseHeaders,
        ProcessingEvent::RequestBody { model } => {
            match model {
                Some(m) => ProcessingAction::RequestBody {
                    set_model_header: Some(copy_bytes(m.as_slice())),
                    clear_route_cache: true,
                },
                None => ProcessingAction::RequestBody {
                    set_model_header: None,
                    clear_route_cache: false,
                },
            }
        },
        ProcessingEvent::ResponseBody => ProcessingAction::ResponseBody,
        ProcessingEvent::RequestTrailers => ProcessingAction::RequestTrailers,
        ProcessingEvent::ResponseTrailers => ProcessingAction::ResponseTrailers,
        ProcessingEvent::Empty => ProcessingAction::NoResponse,
    }
}

} // verus!

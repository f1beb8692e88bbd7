//! The OpenAI-shaped data model.
//!
//! A backend advertises models; the fabric attaches the load counters it
//! scraped and groups everything by resolved address.  Text is carried as
//! bytes; the I/O shell converts at its edges.

use vstd::prelude::*;

verus! {

/// One advertised model: its identifier, the two load counters summed from
/// the backend's metrics where they were observed, and whatever further
/// fields the backend's catalog carried, preserved opaquely.  Each extra
/// field is a raw key and a raw, pre-serialized JSON value fragment; the
/// library splices them into its list bodies verbatim and never reads them.
#[derive(Clone)]
pub struct Model {
    pub id: Vec<u8>,
    pub running: Option<u64>,
    pub pending: Option<u64>,
    pub extra: Vec<(Vec<u8>, Vec<u8>)>,
}

/// Mathematical value of a [`Model`].
pub ghost struct ModelV {
    pub id: Seq<u8>,
    pub running: Option<u64>,
    pub pending: Option<u64>,
    pub extra: Seq<(Seq<u8>, Seq<u8>)>,
}

impl DeepView for Model {
    type V = ModelV;

    open spec fn deep_view(&self) -> ModelV {
        ModelV {
            id: self.id.deep_view(),
            running: self.running,
            pending: self.pending,
            extra: self.extra.deep_view(),
        }
    }
}

/// The OpenAI list envelope: `{"object":"list","data":[...]}`.
pub struct List<T> {
    pub data: Vec<T>,
}

impl<T: DeepView> DeepView for List<T> {
    type V = Seq<T::V>;

    open spec fn deep_view(&self) -> Seq<T::V> {
        self.data.deep_view()
    }
}

/// The OpenAI error envelope: `{"object":"error","code":...,"message":...}`.
pub struct Error {
    pub code: u16,
    pub message: Vec<u8>,
}

/// Mathematical value of an [`Error`].
pub ghost struct ErrorV {
    pub code: u16,
    pub message: Seq<u8>,
}

impl DeepView for Error {
    type V = ErrorV;

    open spec fn deep_view(&self) -> ErrorV {
        ErrorV { code: self.code, message: self.message.deep_view() }
    }
}

/// One resolved address of an upstream together with the models it reported
/// this cycle.  A probe or parse failure leaves `models` empty but keeps the
/// endpoint listed.
#[derive(Clone)]
pub struct Endpoint {
    pub ip: Vec<u8>,
    pub models: Vec<Model>,
}

/// Mathematical value of an [`Endpoint`].
pub ghost struct EndpointV {
    pub ip: Seq<u8>,
    pub models: Seq<ModelV>,
}

impl DeepView for Endpoint {
    type V = EndpointV;

    open spec fn deep_view(&self) -> EndpointV {
        EndpointV { ip: self.ip.deep_view(), models: self.models.deep_view() }
    }
}

/// The fleet state: one slot per configured upstream, `None` until that
/// upstream's resolver has produced at least once, then the whole endpoint
/// list of its latest cycle.
pub type FleetState = Vec<Option<Vec<Endpoint>>>;

/// Mathematical value of a [`FleetState`].
pub type FleetStateV = Seq<Option<Seq<EndpointV>>>;

} // verus!

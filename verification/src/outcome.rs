//! What one availability lookup can come to, and the record that pairs a
//! domain with it.

use vstd::prelude::*;

verus! {

/// The classification of one lookup.
#[derive(Debug, PartialEq, Eq)]
pub enum LookupOutcome {
    /// The domain is free.
    Available,
    /// The domain cannot be registered; `detail` says why, for a reader.
    Taken { detail: String },
    /// The service refused to answer because too many requests were made.
    RateLimited,
    /// The request failed, or was answered with a failure status.
    TransportError { message: String },
    /// The service answered, but not in the expected format.
    ProtocolError { message: String },
}

/// The mathematical value of a `LookupOutcome`.
pub enum OutcomeView {
    Available,
    Taken { detail: Seq<char> },
    RateLimited,
    TransportError { message: Seq<char> },
    ProtocolError { message: Seq<char> },
}

impl OutcomeView {
    /// Whether the outcome counts as an error: a transport or a protocol
    /// failure. A rate-limited lookup does not.
    pub open spec fn is_error(self) -> bool {
        self is TransportError || self is ProtocolError
    }
}

impl View for LookupOutcome {
    type V = OutcomeView;

    open spec fn view(&self) -> OutcomeView {
        match self {
            LookupOutcome::Available => OutcomeView::Available,
            LookupOutcome::Taken { detail } => OutcomeView::Taken { detail: detail@ },
            LookupOutcome::RateLimited => OutcomeView::RateLimited,
            LookupOutcome::TransportError { message } => OutcomeView::TransportError {
                message: message@,
            },
            LookupOutcome::ProtocolError { message } => OutcomeView::ProtocolError {
                message: message@,
            },
        }
    }
}

impl Clone for LookupOutcome {
    fn clone(&self) -> (copy: Self)
        ensures
            copy@ == self@,
    {
        match self {
            LookupOutcome::Available => LookupOutcome::Available,
            LookupOutcome::Taken { detail } => LookupOutcome::Taken { detail: detail.clone() },
            LookupOutcome::RateLimited => LookupOutcome::RateLimited,
            LookupOutcome::TransportError { message } => LookupOutcome::TransportError {
                message: message.clone(),
            },
            LookupOutcome::ProtocolError { message } => LookupOutcome::ProtocolError {
                message: message.clone(),
            },
        }
    }
}

impl LookupOutcome {
    /// Whether the domain is free.
    pub fn is_available(&self) -> (yes: bool)
        ensures
            yes == (self@ is Available),
    {
        match self {
            LookupOutcome::Available => true,
            _ => false,
        }
    }

    /// Whether the lookup failed in transport or in the protocol.
    pub fn is_error(&self) -> (yes: bool)
        ensures
            yes == self@.is_error(),
    {
        match self {
            LookupOutcome::TransportError { .. } => true,
            LookupOutcome::ProtocolError { .. } => true,
            _ => false,
        }
    }
}

/// A fully-qualified domain with the outcome of its lookup.
#[derive(Debug, PartialEq, Eq)]
pub struct DomainResult {
    pub domain: String,
    pub outcome: LookupOutcome,
}

/// The mathematical value of a `DomainResult`.
pub struct ResultView {
    pub domain: Seq<char>,
    pub outcome: OutcomeView,
}

impl View for DomainResult {
    type V = ResultView;

    open spec fn view(&self) -> ResultView {
        ResultView { domain: self.domain@, outcome: self.outcome@ }
    }
}

impl Clone for DomainResult {
    fn clone(&self) -> (copy: Self)
        ensures
            copy@ == self@,
    {
        DomainResult { domain: self.domain.clone(), outcome: self.outcome.clone() }
    }
}

impl DomainResult {
    /// Pairs a domain with the outcome of its lookup.
    pub fn new(domain: String, outcome: LookupOutcome) -> (result: Self)
        ensures
            result@ == (ResultView { domain: domain@, outcome: outcome@ }),
    {
        DomainResult { domain, outcome }
    }

    /// Whether the domain is free.
    pub fn is_available(&self) -> (yes: bool)
        ensures
            yes == (self@.outcome is Available),
    {
        self.outcome.is_available()
    }

    /// Whether the lookup failed in transport or in the protocol.
    pub fn is_error(&self) -> (yes: bool)
        ensures
            yes == self@.outcome.is_error(),
    {
        self.outcome.is_error()
    }
}

/// The body of a successful answer of the availability service.
#[derive(Debug, PartialEq, Eq)]
pub struct AvailResponse {
    /// 0: free; 2: registered; 3: in process; 4: unavailable.
    pub status: i32,
    pub fqdn: String,
    pub publication_status: Option<String>,
    /// When the registration runs out, as a date and a time with a `T`
    /// between them.
    pub expires_at: Option<String>,
}

/// The text of an optional string.
pub open spec fn optional_text(value: Option<String>) -> Option<Seq<char>> {
    match value {
        Some(text) => Some(text@),
        None => None,
    }
}

/// An HTTP status code: a number from 100 to 999.
#[derive(Debug, Clone, Copy, PartialEq, Eq)]
pub struct HttpStatus {
    code: u16,
}

impl HttpStatus {
    #[verifier::type_invariant]
    spec fn in_range(self) -> bool {
        100 <= self.code <= 999
    }

    /// The number of the status.
    pub closed spec fn value(self) -> int {
        self.code as int
    }

    /// The status with the given number, where that is a status code.
    pub fn new(code: u16) -> (status: Option<HttpStatus>)
        ensures
            status is Some <==> 100 <= code <= 999,
            status is Some ==> status->Some_0.value() == code,
    {
        if 100 <= code && code <= 999 {
            Some(HttpStatus { code })
        } else {
            None
        }
    }

    /// The number of the status.
    pub fn code(&self) -> (code: u16)
        ensures
            code == self.value(),
            100 <= code <= 999,
    {
        proof {
            use_type_invariant(self);
        }
        self.code
    }

    /// Whether the status reports success: 200 to 299.
    pub fn is_success(&self) -> (yes: bool)
        ensures
            yes == (200 <= self.value() <= 299),
    {
        200 <= self.code && self.code <= 299
    }

    /// Whether the status says that too many requests were made: 429.
    pub fn is_too_many_requests(&self) -> (yes: bool)
        ensures
            yes == (self.value() == 429),
    {
        self.code == 429
    }
}

} // verus!

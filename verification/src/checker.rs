//! The rules of one availability lookup: which address is asked, and how
//! each thing that can come back is classified.
//!
//! The request itself is made by the caller. A lookup goes through these
//! steps: `full_domain` and `request_url` give what to ask; a request that
//! fails goes to `transport_failure`; a status goes to `classify_status`,
//! which settles the lookup or asks for the body; the body, read or not,
//! goes to `classify_body` or `parse_failure`.

use vstd::prelude::*;
use vstd::string::*;

use crate::outcome::{
    optional_text, AvailResponse, DomainResult, HttpStatus, LookupOutcome, OutcomeView,
    ResultView,
};
use crate::text::{
    before_first, lemma_signed_decimal_injective, prefix_before, signed_decimal,
    signed_decimal_string,
};

verus! {

/// The address of the availability service, to which the domain is
/// appended.
pub open spec fn endpoint_base() -> Seq<char> {
    "https://registro.br/v2/ajax/avail/raw/"@
}

/// The address of the availability service.
pub fn avail_api_url() -> (base: &'static str)
    ensures
        base@ == endpoint_base(),
{
    "https://registro.br/v2/ajax/avail/raw/"
}

/// The value of the `User-Agent` header that every request carries.
pub fn user_agent() -> (agent: &'static str)
    ensures
        agent@ == "Mozilla/5.0 (Macintosh; Intel Mac OS X 10_15_7)"@,
{
    "Mozilla/5.0 (Macintosh; Intel Mac OS X 10_15_7)"
}

/// The fully-qualified domain: the candidate with the suffix behind it.
pub fn full_domain(candidate: &str, suffix: &str) -> (domain: String)
    ensures
        domain@ == candidate@ + suffix@,
{
    let mut domain = String::from_str(candidate);
    domain.append(suffix);
    domain
}

/// The address to ask about `domain`.
pub fn request_url(domain: &str) -> (url: String)
    ensures
        url@ == endpoint_base() + domain@,
{
    let mut url = String::from_str(avail_api_url());
    url.append(domain);
    url
}

/// What is said of a registered domain: when its registration runs out,
/// by the date alone, where the service told.
pub open spec fn registered_detail(expires_at: Option<Seq<char>>) -> Seq<char> {
    match expires_at {
        Some(moment) => "registered (expires: "@ + prefix_before(moment, 'T') + ")"@,
        None => "registered"@,
    }
}

/// The outcome that a status of the service stands for.
pub open spec fn outcome_of_status(status: int, expires_at: Option<Seq<char>>) -> OutcomeView {
    if status == 0 {
        OutcomeView::Available
    } else if status == 2 {
        OutcomeView::Taken { detail: registered_detail(expires_at) }
    } else if status == 3 {
        OutcomeView::Taken { detail: "processing"@ }
    } else if status == 4 {
        OutcomeView::Taken { detail: "unavailable"@ }
    } else {
        OutcomeView::Taken { detail: "status "@ + signed_decimal(status) }
    }
}

/// No two statuses stand for the same outcome, whatever the service says
/// of the expiry.
pub proof fn lemma_status_mapping_injective(
    first: int,
    second: int,
    first_expiry: Option<Seq<char>>,
    second_expiry: Option<Seq<char>>,
)
    requires
        outcome_of_status(first, first_expiry) == outcome_of_status(second, second_expiry),
    ensures
        first == second,
{
    reveal_strlit("registered (expires: ");
    reveal_strlit("registered");
    reveal_strlit("processing");
    reveal_strlit("unavailable");
    reveal_strlit("status ");
    let a = outcome_of_status(first, first_expiry);
    let b = outcome_of_status(second, second_expiry);
    if first != 0 && second != 0 {
        let da = a->Taken_detail;
        let db = b->Taken_detail;
        assert(da == db);
        assert(registered_detail(first_expiry)[0] == 'r');
        assert(registered_detail(second_expiry)[0] == 'r');
        assert(("status "@ + signed_decimal(first))[0] == 's');
        assert(("status "@ + signed_decimal(second))[0] == 's');
        assert(da[0] == db[0]);
        if first != 2 && first != 3 && first != 4 && second != 2 && second != 3 && second != 4 {
            assert(da.skip(7) =~= signed_decimal(first));
            assert(db.skip(7) =~= signed_decimal(second));
            lemma_signed_decimal_injective(first, second);
        }
    }
}

/// The outcome that a status of the service stands for: 0 is available,
/// 2 registered, 3 in process, 4 unavailable; any other is reported by
/// its number.
pub fn outcome_for_status(status: i32, expires_at: &Option<String>) -> (outcome: LookupOutcome)
    ensures
        outcome@ == outcome_of_status(status as int, optional_text(*expires_at)),
{
    if status == 0 {
        LookupOutcome::Available
    } else if status == 2 {
        match expires_at {
            Some(moment) => {
                let date = before_first(moment.as_str(), 'T');
                let mut detail = String::from_str("registered (expires: ");
                detail.append(date.as_str());
                detail.append(")");
                LookupOutcome::Taken { detail }
            },
            None => LookupOutcome::Taken { detail: String::from_str("registered") },
        }
    } else if status == 3 {
        LookupOutcome::Taken { detail: String::from_str("processing") }
    } else if status == 4 {
        LookupOutcome::Taken { detail: String::from_str("unavailable") }
    } else {
        let number = signed_decimal_string(status);
        let mut detail = String::from_str("status ");
        detail.append(number.as_str());
        LookupOutcome::Taken { detail }
    }
}

/// The result of a lookup whose answer was read: the domain with the
/// outcome that the answer's status stands for.
pub fn classify_body(domain: &str, body: &AvailResponse) -> (result: DomainResult)
    ensures
        result@ == (ResultView {
            domain: domain@,
            outcome: outcome_of_status(body.status as int, optional_text(body.expires_at)),
        }),
{
    DomainResult::new(
        String::from_str(domain),
        outcome_for_status(body.status, &body.expires_at),
    )
}

/// The result of a lookup whose answer could not be read as the expected
/// format: a protocol error that carries the reason.
pub fn parse_failure(domain: &str, reason: &str) -> (result: DomainResult)
    ensures
        result@ == (ResultView {
            domain: domain@,
            outcome: OutcomeView::ProtocolError { message: "parse error: "@ + reason@ },
        }),
{
    let mut message = String::from_str("parse error: ");
    message.append(reason);
    DomainResult::new(String::from_str(domain), LookupOutcome::ProtocolError { message })
}

/// The result of a lookup whose request failed before any answer came:
/// a transport error that carries the reason.
pub fn transport_failure(domain: &str, reason: &str) -> (result: DomainResult)
    ensures
        result@ == (ResultView {
            domain: domain@,
            outcome: OutcomeView::TransportError { message: reason@ },
        }),
{
    DomainResult::new(
        String::from_str(domain),
        LookupOutcome::TransportError { message: String::from_str(reason) },
    )
}

/// The result of a lookup that was answered with a failure status, of
/// which `written` is the displayed form.
pub fn http_failure(domain: &str, written: &str) -> (result: DomainResult)
    ensures
        result@ == (ResultView {
            domain: domain@,
            outcome: OutcomeView::TransportError { message: "HTTP "@ + written@ },
        }),
{
    let mut message = String::from_str("HTTP ");
    message.append(written);
    DomainResult::new(String::from_str(domain), LookupOutcome::TransportError { message })
}

/// The result of a lookup that the service refused for too many requests.
pub fn rate_limited(domain: &str) -> (result: DomainResult)
    ensures
        result@ == (ResultView { domain: domain@, outcome: OutcomeView::RateLimited }),
{
    DomainResult::new(String::from_str(domain), LookupOutcome::RateLimited)
}

/// The text that `reqwest::StatusCode` displays for the status with the
/// given number: the number and the reason phrase that goes with it.
pub uninterp spec fn status_display(code: u16) -> Seq<char>;

/// The displayed form of a status code. Calls `reqwest::StatusCode::from_u16`
/// and then the `Display` of the status, through `to_string`.
///
/// Not proved, but taken from the outside crate: that the number alone
/// decides the text. The text itself is not stated. `from_u16` accepts
/// exactly the numbers from 100 to 999, which is what is required here.
#[verifier::external_body]
fn status_text(code: u16) -> (text: String)
    requires
        100 <= code <= 999,
    ensures
        text@ == status_display(code),
{
    reqwest::StatusCode::from_u16(code).unwrap().to_string()
}

/// What the status of an answer decides.
#[derive(Debug, PartialEq, Eq)]
pub enum StatusVerdict {
    /// The lookup is over, with this result; the body is not read.
    Settled(DomainResult),
    /// The answer reports success: its body holds the outcome.
    ReadBody,
}

/// What a status decides for `domain`, as a mathematical value: the
/// settled result, or none where the body is to be read.
pub open spec fn verdict_of_status(domain: Seq<char>, code: int, written: Seq<char>) -> Option<
    ResultView,
> {
    if code == 429 {
        Some(ResultView { domain, outcome: OutcomeView::RateLimited })
    } else if 200 <= code <= 299 {
        None
    } else {
        Some(
            ResultView {
                domain,
                outcome: OutcomeView::TransportError { message: "HTTP "@ + written },
            },
        )
    }
}

impl StatusVerdict {
    /// The settled result, or none where the body is to be read.
    pub open spec fn settled(self) -> Option<ResultView> {
        match self {
            StatusVerdict::Settled(result) => Some(result@),
            StatusVerdict::ReadBody => None,
        }
    }
}

/// What the status of an answer decides: 429 settles the lookup as
/// rate-limited, a success status asks for the body, any other settles it
/// as a transport error whose message is `HTTP` and the status as it is
/// displayed.
pub fn classify_status(domain: &str, status: HttpStatus) -> (verdict: StatusVerdict)
    ensures
        verdict.settled() == verdict_of_status(
            domain@,
            status.value(),
            status_display(status.value() as u16),
        ),
{
    if status.is_too_many_requests() {
        StatusVerdict::Settled(rate_limited(domain))
    } else if status.is_success() {
        StatusVerdict::ReadBody
    } else {
        let written = status_text(status.code());
        StatusVerdict::Settled(http_failure(domain, written.as_str()))
    }
}

} // verus!

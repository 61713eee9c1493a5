use registrobr_finder::checker::{
    avail_api_url, classify_body, classify_status, full_domain, http_failure, outcome_for_status,
    parse_failure, rate_limited, request_url, transport_failure, user_agent, StatusVerdict,
};
use registrobr_finder::outcome::{AvailResponse, DomainResult, HttpStatus, LookupOutcome};

fn taken(detail: &str) -> LookupOutcome {
    LookupOutcome::Taken { detail: detail.to_string() }
}

fn body(status: i32, expires_at: Option<&str>) -> AvailResponse {
    AvailResponse {
        status,
        fqdn: "ab.com.br".to_string(),
        publication_status: None,
        expires_at: expires_at.map(|s| s.to_string()),
    }
}

#[test]
fn status_zero_is_available() {
    assert_eq!(outcome_for_status(0, &None), LookupOutcome::Available);
    assert_eq!(
        outcome_for_status(0, &Some("2030-01-01T00:00:00".to_string())),
        LookupOutcome::Available
    );
}

#[test]
fn status_two_with_expiry_keeps_the_date_only() {
    let outcome = outcome_for_status(2, &Some("2030-01-01T00:00:00".to_string()));
    assert_eq!(outcome, taken("registered (expires: 2030-01-01)"));
    match outcome {
        LookupOutcome::Taken { detail } => {
            assert!(detail.contains("2030-01-01"));
            assert!(!detail.contains("00:00:00"));
            assert!(!detail.contains('T'));
        }
        _ => panic!("expected a taken domain"),
    }
}

#[test]
fn status_two_without_expiry_is_registered() {
    assert_eq!(outcome_for_status(2, &None), taken("registered"));
}

#[test]
fn status_two_with_expiry_without_time_keeps_it_whole() {
    assert_eq!(
        outcome_for_status(2, &Some("2031-12-31".to_string())),
        taken("registered (expires: 2031-12-31)")
    );
    assert_eq!(
        outcome_for_status(2, &Some(String::new())),
        taken("registered (expires: )")
    );
    assert_eq!(
        outcome_for_status(2, &Some("T12:00".to_string())),
        taken("registered (expires: )")
    );
    assert_eq!(
        outcome_for_status(2, &Some("2030-01-01T00:00:00T1".to_string())),
        taken("registered (expires: 2030-01-01)")
    );
}

#[test]
fn status_three_is_processing() {
    assert_eq!(outcome_for_status(3, &None), taken("processing"));
}

#[test]
fn status_four_is_unavailable() {
    assert_eq!(outcome_for_status(4, &None), taken("unavailable"));
}

#[test]
fn other_statuses_are_reported_by_number() {
    assert_eq!(outcome_for_status(99, &None), taken("status 99"));
    assert_eq!(outcome_for_status(1, &None), taken("status 1"));
    assert_eq!(outcome_for_status(5, &None), taken("status 5"));
    assert_eq!(outcome_for_status(-1, &None), taken("status -1"));
    assert_eq!(outcome_for_status(i32::MAX, &None), taken("status 2147483647"));
    assert_eq!(outcome_for_status(i32::MIN, &None), taken("status -2147483648"));
    assert_eq!(
        outcome_for_status(7, &Some("2030-01-01T00:00:00".to_string())),
        taken("status 7")
    );
}

#[test]
fn distinct_statuses_give_distinct_outcomes() {
    let statuses = [0, 1, 2, 3, 4, 5, 10, 99, -1, -99];
    for a in statuses {
        for b in statuses {
            if a != b {
                assert_ne!(outcome_for_status(a, &None), outcome_for_status(b, &None));
            }
        }
    }
}

#[test]
fn body_is_classified_by_its_status() {
    let result = classify_body("ab.com.br", &body(0, None));
    assert_eq!(
        result,
        DomainResult { domain: "ab.com.br".to_string(), outcome: LookupOutcome::Available }
    );
    assert!(result.is_available());
    assert!(!result.is_error());
    let result = classify_body("ab.com.br", &body(2, Some("2030-01-01T00:00:00")));
    assert_eq!(result.domain, "ab.com.br");
    assert_eq!(result.outcome, taken("registered (expires: 2030-01-01)"));
    assert!(!result.is_available());
    assert!(!result.is_error());
}

#[test]
fn too_many_requests_is_rate_limited() {
    let status = HttpStatus::new(429).unwrap();
    let verdict = classify_status("ab.com.br", status);
    assert_eq!(
        verdict,
        StatusVerdict::Settled(DomainResult {
            domain: "ab.com.br".to_string(),
            outcome: LookupOutcome::RateLimited,
        })
    );
    let result = rate_limited("ab.com.br");
    assert!(!result.is_available());
    assert!(!result.is_error());
}

#[test]
fn success_statuses_ask_for_the_body() {
    for code in [200u16, 201, 204, 299] {
        let status = HttpStatus::new(code).unwrap();
        assert!(status.is_success());
        assert_eq!(classify_status("ab.com.br", status), StatusVerdict::ReadBody);
    }
}

#[test]
fn failure_statuses_are_transport_errors() {
    let verdict = classify_status("ab.com.br", HttpStatus::new(404).unwrap());
    assert_eq!(
        verdict,
        StatusVerdict::Settled(DomainResult {
            domain: "ab.com.br".to_string(),
            outcome: LookupOutcome::TransportError { message: "HTTP 404 Not Found".to_string() },
        })
    );
    let verdict = classify_status("ab.com.br", HttpStatus::new(500).unwrap());
    assert_eq!(
        verdict,
        StatusVerdict::Settled(DomainResult {
            domain: "ab.com.br".to_string(),
            outcome: LookupOutcome::TransportError {
                message: "HTTP 500 Internal Server Error".to_string(),
            },
        })
    );
    for code in [100u16, 199, 300, 301, 400, 403, 428, 430, 503, 999] {
        match classify_status("ab.com.br", HttpStatus::new(code).unwrap()) {
            StatusVerdict::Settled(result) => {
                assert!(result.is_error());
                match result.outcome {
                    LookupOutcome::TransportError { message } => {
                        assert!(message.starts_with(&format!("HTTP {}", code)));
                    }
                    _ => panic!("expected a transport error"),
                }
            }
            StatusVerdict::ReadBody => panic!("expected a settled lookup"),
        }
    }
}

#[test]
fn status_text_differs_from_status_to_status() {
    let a = classify_status("ab.com.br", HttpStatus::new(404).unwrap());
    let b = classify_status("ab.com.br", HttpStatus::new(502).unwrap());
    assert_ne!(a, b);
    assert_eq!(
        b,
        StatusVerdict::Settled(http_failure("ab.com.br", "502 Bad Gateway"))
    );
}

#[test]
fn http_failure_names_the_status() {
    let result = http_failure("ab.com.br", "418");
    assert_eq!(result.domain, "ab.com.br");
    assert_eq!(
        result.outcome,
        LookupOutcome::TransportError { message: "HTTP 418".to_string() }
    );
}

#[test]
fn timeout_is_a_transport_error() {
    let result = transport_failure("ab.com.br", "operation timed out");
    assert_eq!(result.domain, "ab.com.br");
    assert_eq!(
        result.outcome,
        LookupOutcome::TransportError { message: "operation timed out".to_string() }
    );
    assert!(result.is_error());
    assert!(!result.is_available());
}

#[test]
fn unreadable_body_is_a_protocol_error() {
    let result = parse_failure("ab.com.br", "expected value at line 1 column 1");
    assert_eq!(result.domain, "ab.com.br");
    assert_eq!(
        result.outcome,
        LookupOutcome::ProtocolError {
            message: "parse error: expected value at line 1 column 1".to_string(),
        }
    );
    assert!(result.is_error());
}

#[test]
fn status_codes_have_three_digits() {
    assert!(HttpStatus::new(99).is_none());
    assert!(HttpStatus::new(0).is_none());
    assert!(HttpStatus::new(1000).is_none());
    assert!(HttpStatus::new(u16::MAX).is_none());
    assert_eq!(HttpStatus::new(100).unwrap().code(), 100);
    assert_eq!(HttpStatus::new(999).unwrap().code(), 999);
    assert!(!HttpStatus::new(199).unwrap().is_success());
    assert!(!HttpStatus::new(300).unwrap().is_success());
    assert!(HttpStatus::new(429).unwrap().is_too_many_requests());
    assert!(!HttpStatus::new(428).unwrap().is_too_many_requests());
}

#[test]
fn domain_and_address_are_concatenations() {
    assert_eq!(full_domain("ab", ".com.br"), "ab.com.br");
    assert_eq!(full_domain("", ".br"), ".br");
    assert_eq!(full_domain("x9", ""), "x9");
    assert_eq!(avail_api_url(), "https://registro.br/v2/ajax/avail/raw/");
    assert_eq!(
        request_url("ab.com.br"),
        "https://registro.br/v2/ajax/avail/raw/ab.com.br"
    );
    assert_eq!(user_agent(), "Mozilla/5.0 (Macintosh; Intel Mac OS X 10_15_7)");
}

#[test]
fn results_can_be_copied() {
    let result = http_failure("ab.com.br", "500");
    let copy = result.clone();
    assert_eq!(result, copy);
}

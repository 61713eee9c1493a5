use registrobr_finder::aggregate::ScanAggregate;
use registrobr_finder::checker::{
    outcome_for_status, parse_failure, rate_limited, transport_failure,
};
use registrobr_finder::outcome::{DomainResult, LookupOutcome};

fn result(domain: &str, outcome: LookupOutcome) -> DomainResult {
    DomainResult { domain: domain.to_string(), outcome }
}

fn sample() -> Vec<DomainResult> {
    vec![
        result("aa.com.br", LookupOutcome::Available),
        result("ab.com.br", outcome_for_status(2, &None)),
        rate_limited("ac.com.br"),
        transport_failure("ad.com.br", "timed out"),
        result("ae.com.br", LookupOutcome::Available),
        parse_failure("af.com.br", "eof"),
        result("ag.com.br", outcome_for_status(4, &None)),
        result("ah.com.br", LookupOutcome::Available),
    ]
}

fn shuffled(items: &[DomainResult], seed: u64) -> Vec<DomainResult> {
    let mut out: Vec<DomainResult> = items.to_vec();
    let mut state = seed;
    let mut i = out.len();
    while i > 1 {
        state = state.wrapping_mul(6364136223846793005).wrapping_add(1442695040888963407);
        let j = (state >> 33) as usize % i;
        i -= 1;
        out.swap(i, j);
    }
    out
}

#[test]
fn new_totals_are_empty() {
    let totals = ScanAggregate::new();
    assert_eq!(totals.available_count(), 0);
    assert_eq!(totals.error_count(), 0);
    assert!(totals.available_domains().is_empty());
}

#[test]
fn available_results_are_counted_and_listed() {
    let mut totals = ScanAggregate::new();
    totals.record(&result("aa.com.br", LookupOutcome::Available));
    assert_eq!(totals.available_count(), 1);
    assert_eq!(totals.error_count(), 0);
    assert_eq!(totals.available_domains(), &vec!["aa.com.br".to_string()]);
    totals.record(&result("zz.com.br", LookupOutcome::Available));
    assert_eq!(totals.available_count(), 2);
    assert_eq!(
        totals.available_domains(),
        &vec!["aa.com.br".to_string(), "zz.com.br".to_string()]
    );
}

#[test]
fn errors_are_counted_only() {
    let mut totals = ScanAggregate::new();
    totals.record(&transport_failure("aa.com.br", "connection refused"));
    totals.record(&parse_failure("ab.com.br", "eof"));
    assert_eq!(totals.available_count(), 0);
    assert_eq!(totals.error_count(), 2);
    assert!(totals.available_domains().is_empty());
}

#[test]
fn rate_limited_and_taken_change_nothing() {
    let mut totals = ScanAggregate::new();
    totals.record(&rate_limited("aa.com.br"));
    totals.record(&result("ab.com.br", outcome_for_status(2, &None)));
    totals.record(&result("ac.com.br", outcome_for_status(3, &None)));
    totals.record(&result("ad.com.br", outcome_for_status(77, &None)));
    assert_eq!(totals.available_count(), 0);
    assert_eq!(totals.error_count(), 0);
    assert!(totals.available_domains().is_empty());
}

#[test]
fn totals_match_the_results() {
    let results = sample();
    let mut totals = ScanAggregate::new();
    for r in &results {
        totals.record(r);
    }
    let available = results.iter().filter(|r| r.is_available()).count();
    assert_eq!(available, 3);
    assert_eq!(totals.available_count(), available);
    assert_eq!(totals.available_domains().len(), available);
    assert_eq!(totals.error_count(), 2);
    assert_eq!(
        totals.available_domains(),
        &vec!["aa.com.br".to_string(), "ae.com.br".to_string(), "ah.com.br".to_string()]
    );
}

#[test]
fn totals_do_not_depend_on_the_order() {
    let results = sample();
    for seed in 0..50u64 {
        let mixed = shuffled(&results, seed);
        let mut totals = ScanAggregate::new();
        for r in &mixed {
            totals.record(r);
        }
        assert_eq!(totals.available_count(), 3);
        assert_eq!(totals.error_count(), 2);
        let expected: Vec<String> = mixed
            .iter()
            .filter(|r| r.is_available())
            .map(|r| r.domain.clone())
            .collect();
        assert_eq!(totals.available_domains(), &expected);
        let mut listed = totals.available_domains().clone();
        listed.sort();
        assert_eq!(
            listed,
            vec!["aa.com.br".to_string(), "ae.com.br".to_string(), "ah.com.br".to_string()]
        );
        listed.dedup();
        assert_eq!(listed.len(), 3);
    }
}

//! The running totals of a scan: how many domains were found free, which
//! ones, and how many lookups failed.

use vstd::prelude::*;
use vstd::seq_lib::{
    to_multiset_build, to_multiset_contains, to_multiset_len, to_multiset_remove,
};

use crate::outcome::{DomainResult, LookupOutcome, ResultView};
use crate::text::texts;

verus! {

/// The mathematical value of a `ScanAggregate`.
pub struct AggregateView {
    pub available_count: nat,
    pub error_count: nat,
    pub available_domains: Seq<Seq<char>>,
}

/// The domains of the results that are available, in the order of the
/// results.
pub open spec fn available_names(results: Seq<ResultView>) -> Seq<Seq<char>>
    decreases results.len(),
{
    if results.len() == 0 {
        Seq::empty()
    } else if results.last().outcome is Available {
        available_names(results.drop_last()).push(results.last().domain)
    } else {
        available_names(results.drop_last())
    }
}

/// How many of the results are available.
pub open spec fn available_total(results: Seq<ResultView>) -> nat
    decreases results.len(),
{
    if results.len() == 0 {
        0
    } else if results.last().outcome is Available {
        available_total(results.drop_last()) + 1
    } else {
        available_total(results.drop_last())
    }
}

/// How many of the results are transport or protocol errors.
pub open spec fn error_total(results: Seq<ResultView>) -> nat
    decreases results.len(),
{
    if results.len() == 0 {
        0
    } else if results.last().outcome.is_error() {
        error_total(results.drop_last()) + 1
    } else {
        error_total(results.drop_last())
    }
}

/// The totals after the given results were recorded, in that order,
/// starting from nothing.
pub open spec fn tally(results: Seq<ResultView>) -> AggregateView {
    AggregateView {
        available_count: available_total(results),
        error_count: error_total(results),
        available_domains: available_names(results),
    }
}

/// The totals after one more result was recorded.
pub open spec fn recorded(totals: AggregateView, result: ResultView) -> AggregateView {
    if result.outcome is Available {
        AggregateView {
            available_count: totals.available_count + 1,
            error_count: totals.error_count,
            available_domains: totals.available_domains.push(result.domain),
        }
    } else if result.outcome.is_error() {
        AggregateView {
            available_count: totals.available_count,
            error_count: totals.error_count + 1,
            available_domains: totals.available_domains,
        }
    } else {
        totals
    }
}

/// Recording results one by one gives the tally of all of them.
pub proof fn lemma_tally_push(results: Seq<ResultView>, result: ResultView)
    ensures
        tally(results.push(result)) == recorded(tally(results), result),
        tally(Seq::empty()) == (AggregateView {
            available_count: 0,
            error_count: 0,
            available_domains: Seq::empty(),
        }),
{
    assert(results.push(result).drop_last() =~= results);
}

/// A lookup that ended rate-limited, or with a taken domain, leaves the
/// totals as they are: it is counted neither as available nor as an error.
pub proof fn lemma_only_available_and_errors_count(totals: AggregateView, result: ResultView)
    requires
        result.outcome is RateLimited || result.outcome is Taken,
    ensures
        recorded(totals, result) == totals,
{
}

/// No result is counted twice: the available ones and the errors together
/// are at most as many as the results.
pub proof fn lemma_tally_bounded(results: Seq<ResultView>)
    ensures
        available_total(results) + error_total(results) <= results.len(),
    decreases results.len(),
{
    if results.len() > 0 {
        lemma_tally_bounded(results.drop_last());
    }
}

/// Whether one of the results is available and is about `domain`.
pub open spec fn found_available(results: Seq<ResultView>, domain: Seq<char>) -> bool {
    exists|k: int|
        0 <= k < results.len() && (#[trigger] results[k]).outcome is Available && results[k].domain
            == domain
}

/// No two of the results are about the same domain.
pub open spec fn distinct_domains(results: Seq<ResultView>) -> bool {
    forall|i: int, j: int|
        0 <= i < results.len() && 0 <= j < results.len() && i != j ==> (#[trigger] results[i]).domain
            != (#[trigger] results[j]).domain
}

/// The tally's count of available domains is the number of results whose
/// outcome is available, and it is the length of the list. The list holds
/// the domain of every available result and no other; where no two results
/// are about the same domain, it holds none twice.
pub proof fn lemma_tally_complete(results: Seq<ResultView>)
    ensures
        tally(results).available_count == available_total(results),
        tally(results).available_domains.len() == available_total(results),
        forall|domain: Seq<char>| #[trigger]
            tally(results).available_domains.contains(domain) <==> found_available(
                results,
                domain,
            ),
        distinct_domains(results) ==> tally(results).available_domains.no_duplicates(),
    decreases results.len(),
{
    let names = available_names(results);
    if results.len() > 0 {
        let front = results.drop_last();
        let last = results.last();
        let before = available_names(front);
        lemma_tally_complete(front);
        assert forall|domain: Seq<char>| #[trigger]
            names.contains(domain) <==> found_available(results, domain) by {
            if names.contains(domain) {
                let j = choose|j: int| 0 <= j < names.len() && names[j] == domain;
                if last.outcome is Available && j == names.len() - 1 {
                    assert(results[results.len() - 1] == last);
                } else {
                    assert(before[j] == domain);
                    assert(before.contains(domain));
                    let k = choose|k: int|
                        0 <= k < front.len() && (#[trigger] front[k]).outcome is Available
                            && front[k].domain == domain;
                    assert(results[k] == front[k]);
                }
            }
            if found_available(results, domain) {
                let k = choose|k: int|
                    0 <= k < results.len() && (#[trigger] results[k]).outcome is Available
                        && results[k].domain == domain;
                if k == results.len() - 1 {
                    assert(names[names.len() - 1] == domain);
                } else {
                    assert(front[k] == results[k]);
                    assert(found_available(front, domain));
                    assert(before.contains(domain));
                    let j = choose|j: int| 0 <= j < before.len() && before[j] == domain;
                    assert(names[j] == domain);
                }
            }
        }
        if distinct_domains(results) {
            assert(distinct_domains(front)) by {
                assert forall|i: int, j: int|
                    0 <= i < front.len() && 0 <= j < front.len() && i != j implies (
                #[trigger] front[i]).domain != (#[trigger] front[j]).domain by {
                    assert(front[i] == results[i]);
                    assert(front[j] == results[j]);
                }
            }
            if last.outcome is Available {
                if before.contains(last.domain) {
                    let k = choose|k: int|
                        0 <= k < front.len() && (#[trigger] front[k]).outcome is Available
                            && front[k].domain == last.domain;
                    assert(results[k] == front[k]);
                    assert(results[results.len() - 1] == last);
                    assert(false);
                }
                assert forall|i: int, j: int|
                    0 <= i < names.len() && 0 <= j < names.len() && i != j implies names[i]
                    != names[j] by {
                    if i < before.len() {
                        assert(before.contains(names[i]));
                    }
                    if j < before.len() {
                        assert(before.contains(names[j]));
                    }
                }
            }
        }
    } else {
        assert forall|domain: Seq<char>| #[trigger]
            names.contains(domain) <==> found_available(results, domain) by {}
    }
}

/// What leaving out one result does to the totals.
proof fn lemma_tally_remove(results: Seq<ResultView>, i: int)
    requires
        0 <= i < results.len(),
    ensures
        available_total(results) == available_total(results.remove(i)) + (if results[i].outcome is Available {
            1nat
        } else {
            0nat
        }),
        error_total(results) == error_total(results.remove(i)) + (if results[i].outcome.is_error() {
            1nat
        } else {
            0nat
        }),
        available_names(results).to_multiset() == (if results[i].outcome is Available {
            available_names(results.remove(i)).to_multiset().insert(results[i].domain)
        } else {
            available_names(results.remove(i)).to_multiset()
        }),
    decreases results.len(),
{
    let front = results.drop_last();
    let last = results.last();
    if i == results.len() - 1 {
        assert(results.remove(i) =~= front);
        to_multiset_build(available_names(front), last.domain);
    } else {
        let shorter = results.remove(i);
        assert(shorter.drop_last() =~= front.remove(i));
        assert(shorter.last() == last);
        assert(front[i] == results[i]);
        lemma_tally_remove(front, i);
        to_multiset_build(available_names(front), last.domain);
        to_multiset_build(available_names(front.remove(i)), last.domain);
        if last.outcome is Available && results[i].outcome is Available {
            assert(available_names(front.remove(i)).to_multiset().insert(results[i].domain).insert(
                last.domain,
            ) =~= available_names(front.remove(i)).to_multiset().insert(last.domain).insert(
                results[i].domain,
            ));
        }
    }
}

/// The totals do not depend on the order in which the results come: two
/// sequences that hold the same results, each as often as the other, give
/// the same counts and the same available domains, each as often.
pub proof fn lemma_tally_order_independent(first: Seq<ResultView>, second: Seq<ResultView>)
    requires
        first.to_multiset() == second.to_multiset(),
    ensures
        tally(first).available_count == tally(second).available_count,
        tally(first).error_count == tally(second).error_count,
        tally(first).available_domains.to_multiset() == tally(
            second,
        ).available_domains.to_multiset(),
    decreases first.len(),
{
    to_multiset_len(first);
    to_multiset_len(second);
    if first.len() == 0 {
        assert(second =~= Seq::<ResultView>::empty());
        assert(first =~= Seq::<ResultView>::empty());
    } else {
        let last = first.last();
        let front = first.drop_last();
        assert(first[first.len() - 1] == last);
        assert(first.contains(last));
        to_multiset_contains(first, last);
        to_multiset_contains(second, last);
        let i = choose|i: int| 0 <= i < second.len() && second[i] == last;
        assert(first.remove(first.len() - 1) =~= front);
        to_multiset_remove(first, first.len() - 1);
        to_multiset_remove(second, i);
        lemma_tally_order_independent(front, second.remove(i));
        lemma_tally_remove(second, i);
        to_multiset_build(available_names(front), last.domain);
    }
}

/// The running totals of a scan.
///
/// The count of available domains always is the length of their list.
#[derive(Debug)]
pub struct ScanAggregate {
    available_count: usize,
    error_count: usize,
    available_domains: Vec<String>,
}

impl View for ScanAggregate {
    type V = AggregateView;

    closed spec fn view(&self) -> AggregateView {
        AggregateView {
            available_count: self.available_count as nat,
            error_count: self.error_count as nat,
            available_domains: texts(self.available_domains@),
        }
    }
}

impl ScanAggregate {
    /// The count of available domains is the length of their list.
    pub closed spec fn wf(&self) -> bool {
        self.available_count == self.available_domains@.len()
    }

    /// In well-formed totals the count of available domains is the length
    /// of their list.
    pub proof fn lemma_wf(&self)
        requires
            self.wf(),
        ensures
            self@.available_count == self@.available_domains.len(),
    {
    }

    /// The totals of a scan in which nothing was recorded yet.
    pub fn new() -> (totals: Self)
        ensures
            totals.wf(),
            totals@ == tally(Seq::empty()),
    {
        let totals = ScanAggregate {
            available_count: 0,
            error_count: 0,
            available_domains: Vec::new(),
        };
        assert(texts(totals.available_domains@) =~= Seq::empty());
        totals
    }

    /// Takes one completed lookup into the totals: an available domain is
    /// counted and appended to the list, a transport or protocol error is
    /// counted, anything else leaves the totals as they are.
    pub fn record(&mut self, result: &DomainResult)
        requires
            old(self).wf(),
            old(self)@.error_count < usize::MAX,
        ensures
            final(self).wf(),
            final(self)@ == recorded(old(self)@, result@),
    {
        match &result.outcome {
            LookupOutcome::Available => {
                let ghost before = self.available_domains@;
                self.available_domains.push(result.domain.clone());
                assert(self.available_domains.len() <= usize::MAX);
                self.available_count = self.available_count + 1;
                assert(texts(self.available_domains@) =~= texts(before).push(result.domain@));
            },
            LookupOutcome::TransportError { .. } => {
                self.error_count = self.error_count + 1;
            },
            LookupOutcome::ProtocolError { .. } => {
                self.error_count = self.error_count + 1;
            },
            _ => {},
        }
    }

    /// How many domains were found available.
    pub fn available_count(&self) -> (count: usize)
        ensures
            count == self@.available_count,
    {
        self.available_count
    }

    /// How many lookups ended in a transport or protocol error.
    pub fn error_count(&self) -> (count: usize)
        ensures
            count == self@.error_count,
    {
        self.error_count
    }

    /// The available domains, in the order in which they were recorded.
    pub fn available_domains(&self) -> (domains: &Vec<String>)
        ensures
            texts(domains@) == self@.available_domains,
    {
        &self.available_domains
    }
}

} // verus!

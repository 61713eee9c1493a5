//! The coordinator of a scan: which lookup may start next, and what each
//! completed lookup does to the results and the totals.
//!
//! The coordinator makes no request itself. Its caller asks `next_action`
//! what to do, starts the lookup that a `Dispatch` names, and hands each
//! result back with `complete`, in whatever order the lookups end.

use vstd::prelude::*;
use vstd::seq_lib::*;
use vstd::set_lib::*;
use vstd::string::*;

use crate::aggregate::{
    available_total, distinct_domains, error_total, found_available, lemma_tally_bounded,
    lemma_tally_complete, lemma_tally_push, recorded, tally, AggregateView, ScanAggregate,
};
use crate::checker::{endpoint_base, full_domain, request_url};
use crate::outcome::{DomainResult, ResultView};
use crate::progress::{
    line_text, notification, status_message, ProgressReporter, ProgressUpdate, ReporterView,
};
use crate::text::texts;

verus! {

/// The mathematical value of a `Scan`.
pub struct ScanView {
    /// The candidates, in the order in which they are dispatched.
    pub candidates: Seq<Seq<char>>,
    /// What is appended to a candidate to give its domain.
    pub suffix: Seq<char>,
    /// How many lookups may be in flight at once.
    pub limit: nat,
    /// How many candidates were dispatched: those before this position.
    pub dispatched: nat,
    /// For each result, the position of the candidate that it belongs to.
    pub order: Seq<int>,
    /// The results, in the order in which the lookups completed.
    pub results: Seq<ResultView>,
    pub totals: AggregateView,
    pub progress: ReporterView,
}

impl ScanView {
    /// The domain of the candidate at position `ticket`.
    pub open spec fn domain_of(self, ticket: int) -> Seq<char> {
        self.candidates[ticket] + self.suffix
    }

    /// How many lookups are in flight: dispatched and not yet completed.
    pub open spec fn in_flight(self) -> int {
        self.dispatched - self.results.len()
    }

    /// Whether the lookup of the candidate at `ticket` is in flight.
    pub open spec fn awaits(self, ticket: int) -> bool {
        0 <= ticket < self.dispatched && !self.order.contains(ticket)
    }

    /// The positions of the candidates whose lookups are in flight.
    pub open spec fn awaited(self) -> Set<int> {
        Set::new(|ticket: int| self.awaits(ticket))
    }

    /// The result of the candidate at `ticket`, once its lookup has
    /// completed.
    pub open spec fn result_of(self, ticket: int) -> ResultView {
        self.results[self.order.index_of(ticket)]
    }

    /// Whether every candidate has its result.
    pub open spec fn finished(self) -> bool {
        self.results.len() == self.candidates.len()
    }

    /// What holds of every scan, at every moment.
    pub open spec fn valid(self) -> bool {
        &&& self.dispatched <= self.candidates.len()
        &&& self.order.len() == self.results.len()
        &&& self.order.no_duplicates()
        &&& forall|k: int|
            0 <= k < self.order.len() ==> 0 <= #[trigger] self.order[k] < self.dispatched
        &&& forall|k: int|
            0 <= k < self.results.len() ==> (#[trigger] self.results[k]).domain == self.domain_of(
                self.order[k],
            )
        &&& self.in_flight() <= self.limit
        &&& self.totals == tally(self.results)
        &&& self.progress.total == self.candidates.len()
        &&& self.progress.completed == self.results.len()
    }
}

/// The lookups in flight are as many as were dispatched and have not
/// completed, and never more than the limit.
pub proof fn lemma_in_flight_bounded(scan: ScanView)
    requires
        scan.valid(),
    ensures
        scan.awaited().finite(),
        scan.awaited().len() == scan.in_flight(),
        0 <= scan.in_flight() <= scan.limit,
{
    let all = set_int_range(0, scan.dispatched as int);
    let done = scan.order.to_set();
    lemma_int_range(0, scan.dispatched as int);
    scan.order.unique_seq_to_set();
    assert(done.subset_of(all)) by {
        assert forall|t: int| done.contains(t) implies all.contains(t) by {
            let k = choose|k: int| 0 <= k < scan.order.len() && scan.order[k] == t;
            assert(0 <= scan.order[k] < scan.dispatched);
        }
    }
    lemma_len_subset(done, all);
    lemma_set_difference_len(all, done);
    assert(all.intersect(done) =~= done);
    assert(all.difference(done) =~= scan.awaited());
}

/// Once the scan has finished there is exactly one result for each
/// candidate, about that candidate's domain, and nothing is in flight.
pub proof fn lemma_finished_covers(scan: ScanView)
    requires
        scan.valid(),
        scan.finished(),
    ensures
        scan.results.len() == scan.candidates.len(),
        scan.in_flight() == 0,
        forall|i: int|
            0 <= i < scan.candidates.len() ==> #[trigger] scan.order.contains(i)
                && scan.result_of(i).domain == scan.domain_of(i),
        scan.order.no_duplicates(),
{
    lemma_in_flight_bounded(scan);
    assert forall|i: int| 0 <= i < scan.candidates.len() implies #[trigger] scan.order.contains(i)
        && scan.result_of(i).domain == scan.domain_of(i) by {
        if !scan.order.contains(i) {
            assert(scan.awaits(i));
            assert(scan.awaited().contains(i));
            assert(scan.awaited().len() > 0);
        }
        let k = scan.order.index_of(i);
        assert(scan.results[k].domain == scan.domain_of(scan.order[k]));
    }
}

/// What the coordinator asks of its caller.
#[derive(Debug, PartialEq, Eq)]
pub enum Action {
    /// Start the lookup of `domain` at `url`, and hand its result back
    /// under `ticket`.
    Dispatch { ticket: usize, domain: String, url: String },
    /// Start nothing: hand back the result of a lookup in flight first.
    Wait,
    /// Every candidate has its result.
    Finished,
}

/// The mathematical value of an `Action`.
pub enum ActionView {
    Dispatch { ticket: int, domain: Seq<char>, url: Seq<char> },
    Wait,
    Finished,
}

impl View for Action {
    type V = ActionView;

    open spec fn view(&self) -> ActionView {
        match self {
            Action::Dispatch { ticket, domain, url } => ActionView::Dispatch {
                ticket: *ticket as int,
                domain: domain@,
                url: url@,
            },
            Action::Wait => ActionView::Wait,
            Action::Finished => ActionView::Finished,
        }
    }
}

/// What the coordinator asks next: nothing more once every candidate has
/// its result; else the next candidate, while one is left and the limit
/// leaves room; else to wait.
pub open spec fn scheduled(scan: ScanView) -> ActionView {
    if scan.finished() {
        ActionView::Finished
    } else if scan.dispatched < scan.candidates.len() && scan.in_flight() < scan.limit {
        ActionView::Dispatch {
            ticket: scan.dispatched as int,
            domain: scan.domain_of(scan.dispatched as int),
            url: endpoint_base() + scan.domain_of(scan.dispatched as int),
        }
    } else {
        ActionView::Wait
    }
}

/// The scan after it has asked for its next action: a dispatched candidate
/// is in flight from then on.
pub open spec fn after_schedule(scan: ScanView) -> ScanView {
    if scheduled(scan) is Dispatch {
        ScanView { dispatched: scan.dispatched + 1, ..scan }
    } else {
        scan
    }
}

/// Why a result was not accepted.
#[derive(Debug, Clone, Copy, PartialEq, Eq, Structural)]
pub enum CompletionError {
    /// No lookup is in flight under the ticket.
    NotInFlight,
    /// The result is about another domain than the ticket's.
    WrongDomain,
}

/// Why the scan does not accept `result` under `ticket`, if it does not.
pub open spec fn refusal(scan: ScanView, ticket: int, result: ResultView) -> Option<
    CompletionError,
> {
    if !scan.awaits(ticket) {
        Some(CompletionError::NotInFlight)
    } else if result.domain != scan.domain_of(ticket) {
        Some(CompletionError::WrongDomain)
    } else {
        None
    }
}

/// The scan after `result` was accepted under `ticket`.
pub open spec fn after_complete(scan: ScanView, ticket: int, result: ResultView) -> ScanView {
    ScanView {
        order: scan.order.push(ticket),
        results: scan.results.push(result),
        totals: recorded(scan.totals, result),
        progress: ReporterView { completed: scan.progress.completed + 1, ..scan.progress },
        ..scan
    }
}

/// While the limit is not zero a scan never stalls: it has finished, or a
/// lookup can start, or one is in flight whose result will come.
pub proof fn lemma_never_stalls(scan: ScanView)
    requires
        scan.valid(),
        scan.limit > 0,
    ensures
        scheduled(scan) is Wait ==> scan.in_flight() > 0,
{
    lemma_in_flight_bounded(scan);
}

/// Asking for the next action keeps a scan valid; a dispatched candidate
/// is in flight from then on.
pub proof fn lemma_schedule_keeps_valid(scan: ScanView)
    requires
        scan.valid(),
    ensures
        after_schedule(scan).valid(),
        scheduled(scan) is Dispatch ==> after_schedule(scan).awaits(scan.dispatched as int)
            && after_schedule(scan).in_flight() == scan.in_flight() + 1,
{
    if scheduled(scan) is Dispatch {
        if scan.order.contains(scan.dispatched as int) {
            let k = choose|k: int|
                0 <= k < scan.order.len() && scan.order[k] == scan.dispatched as int;
            assert(scan.order[k] < scan.dispatched);
        }
    }
}

/// Accepting a result keeps a scan valid; the lookup is in flight no
/// longer, and a result can only be accepted while one is in flight.
pub proof fn lemma_complete_keeps_valid(scan: ScanView, ticket: int, result: ResultView)
    requires
        scan.valid(),
        refusal(scan, ticket, result) is None,
    ensures
        scan.in_flight() > 0,
        scan.results.len() < scan.candidates.len(),
        after_complete(scan, ticket, result).valid(),
        after_complete(scan, ticket, result).in_flight() == scan.in_flight() - 1,
        !after_complete(scan, ticket, result).awaits(ticket),
{
    lemma_in_flight_bounded(scan);
    let next = after_complete(scan, ticket, result);
    lemma_tally_push(scan.results, result);
    assert(next.order[next.order.len() - 1] == ticket);
    assert(next.order.no_duplicates()) by {
        assert forall|i: int, j: int|
            0 <= i < next.order.len() && 0 <= j < next.order.len() && i != j implies next.order[i]
            != next.order[j] by {
            if i < scan.order.len() {
                assert(scan.order.contains(next.order[i]));
            }
            if j < scan.order.len() {
                assert(scan.order.contains(next.order[j]));
            }
        }
    }
    assert(scan.awaited().contains(ticket));
    assert(scan.awaited().len() > 0);
}

/// As soon as a lookup has completed the next candidate can start, if one
/// is left.
pub proof fn lemma_slot_is_refilled(scan: ScanView, ticket: int, result: ResultView)
    requires
        scan.valid(),
        refusal(scan, ticket, result) is None,
        scan.dispatched < scan.candidates.len(),
    ensures
        scheduled(after_complete(scan, ticket, result)) is Dispatch,
        scheduled(after_complete(scan, ticket, result))->Dispatch_ticket == scan.dispatched,
{
    lemma_complete_keeps_valid(scan, ticket, result);
    lemma_in_flight_bounded(after_complete(scan, ticket, result));
}

/// At every moment of a scan the totals are those of the results so far:
/// the count of available domains is the number of available results and
/// the length of the list, the list holds the domain of each available
/// result and no other, and the count of errors is the number of failed
/// lookups. Where no candidate occurs twice, no domain is listed twice.
pub proof fn lemma_scan_totals(scan: ScanView)
    requires
        scan.valid(),
    ensures
        scan.totals.available_count == available_total(scan.results),
        scan.totals.available_domains.len() == available_total(scan.results),
        scan.totals.error_count == error_total(scan.results),
        forall|domain: Seq<char>| #[trigger]
            scan.totals.available_domains.contains(domain) <==> found_available(
                scan.results,
                domain,
            ),
        scan.candidates.no_duplicates() ==> scan.totals.available_domains.no_duplicates(),
{
    lemma_tally_complete(scan.results);
    lemma_in_flight_bounded(scan);
    if scan.candidates.no_duplicates() {
        assert forall|i: int, j: int|
            0 <= i < scan.results.len() && 0 <= j < scan.results.len() && i != j implies (
        #[trigger] scan.results[i]).domain != (#[trigger] scan.results[j]).domain by {
            let a = scan.candidates[scan.order[i]];
            let b = scan.candidates[scan.order[j]];
            assert(0 <= scan.order[i] < scan.dispatched);
            assert(0 <= scan.order[j] < scan.dispatched);
            assert(scan.results[i].domain == a + scan.suffix);
            assert(scan.results[j].domain == b + scan.suffix);
            if a + scan.suffix == b + scan.suffix {
                assert((a + scan.suffix).len() == (b + scan.suffix).len());
                assert((a + scan.suffix).subrange(0, a.len() as int) =~= a);
                assert((b + scan.suffix).subrange(0, b.len() as int) =~= b);
                assert(a == b);
            }
        }
        assert(distinct_domains(scan.results));
    }
}

/// The values of a sequence of results.
pub open spec fn result_views(results: Seq<DomainResult>) -> Seq<ResultView> {
    Seq::new(results.len(), |k: int| results[k]@)
}

/// A sequence of positions as integers.
pub open spec fn positions(order: Seq<usize>) -> Seq<int> {
    Seq::new(order.len(), |k: int| order[k] as int)
}

/// The scan of the given candidates before anything was dispatched.
pub open spec fn initial(
    candidates: Seq<Seq<char>>,
    suffix: Seq<char>,
    limit: nat,
    verbose: bool,
) -> ScanView {
    ScanView {
        candidates,
        suffix,
        limit,
        dispatched: 0,
        order: Seq::empty(),
        results: Seq::empty(),
        totals: tally(Seq::empty()),
        progress: ReporterView { total: candidates.len(), completed: 0, verbose },
    }
}

/// A scan: its candidates, how far it has come, and what it has found.
#[derive(Debug)]
pub struct Scan {
    candidates: Vec<String>,
    suffix: String,
    limit: usize,
    dispatched: usize,
    done: Vec<bool>,
    order: Vec<usize>,
    results: Vec<DomainResult>,
    totals: ScanAggregate,
    progress: ProgressReporter,
}

impl View for Scan {
    type V = ScanView;

    closed spec fn view(&self) -> ScanView {
        ScanView {
            candidates: texts(self.candidates@),
            suffix: self.suffix@,
            limit: self.limit as nat,
            dispatched: self.dispatched as nat,
            order: positions(self.order@),
            results: result_views(self.results@),
            totals: self.totals@,
            progress: self.progress@,
        }
    }
}

impl Scan {
    /// What the fields of a scan keep to, besides what `ScanView::valid`
    /// says of its value.
    pub closed spec fn wf(&self) -> bool {
        &&& self@.valid()
        &&& self.totals.wf()
        &&& self.done@.len() == self.candidates@.len()
        &&& forall|i: int|
            0 <= i < self.done@.len() ==> (#[trigger] self.done@[i] <==> positions(
                self.order@,
            ).contains(i))
    }

    /// The value of a well-formed scan is valid.
    pub proof fn lemma_wf_valid(&self)
        requires
            self.wf(),
        ensures
            self@.valid(),
    {
    }

    /// A scan of the given candidates, of which at most `limit` are looked
    /// up at once. Nothing is dispatched yet.
    pub fn new(candidates: Vec<String>, suffix: String, limit: usize, verbose: bool) -> (scan:
        Self)
        ensures
            scan.wf(),
            scan@ == initial(texts(candidates@), suffix@, limit as nat, verbose),
    {
        let total = candidates.len();
        let mut done: Vec<bool> = Vec::new();
        while done.len() < total
            invariant
                done@.len() <= total,
                forall|i: int| 0 <= i < done@.len() ==> !done@[i],
            decreases total - done@.len(),
        {
            done.push(false);
        }
        let scan = Scan {
            candidates,
            suffix,
            limit,
            dispatched: 0,
            done,
            order: Vec::new(),
            results: Vec::new(),
            totals: ScanAggregate::new(),
            progress: ProgressReporter::new(total, verbose),
        };
        proof {
            assert(positions(scan.order@) =~= Seq::<int>::empty());
            assert(result_views(scan.results@) =~= Seq::<ResultView>::empty());
        }
        scan
    }

    /// What to do next. A `Dispatch` counts the candidate as in flight
    /// from this call on.
    pub fn next_action(&mut self) -> (action: Action)
        requires
            old(self).wf(),
        ensures
            final(self).wf(),
            action@ == scheduled(old(self)@),
            final(self)@ == after_schedule(old(self)@),
    {
        proof {
            lemma_in_flight_bounded(self@);
            lemma_schedule_keeps_valid(self@);
        }
        if self.results.len() == self.candidates.len() {
            return Action::Finished;
        }
        if self.dispatched < self.candidates.len() && self.dispatched - self.results.len()
            < self.limit {
            let ticket = self.dispatched;
            let domain = full_domain(self.candidates[ticket].as_str(), self.suffix.as_str());
            let url = request_url(domain.as_str());
            self.dispatched = ticket + 1;
            Action::Dispatch { ticket, domain, url }
        } else {
            Action::Wait
        }
    }

    /// Takes in the result of the lookup that was dispatched under
    /// `ticket`: it joins the results, the totals take it into account,
    /// and the returned update says what to show. A result under a ticket
    /// that is not in flight, or about another domain than the ticket's,
    /// is refused and changes nothing.
    pub fn complete(&mut self, ticket: usize, result: DomainResult) -> (outcome: Result<
        ProgressUpdate,
        CompletionError,
    >)
        requires
            old(self).wf(),
        ensures
            final(self).wf(),
            match outcome {
                Ok(update) => {
                    &&& refusal(old(self)@, ticket as int, result@) is None
                    &&& final(self)@ == after_complete(old(self)@, ticket as int, result@)
                    &&& update.position == final(self)@.results.len()
                    &&& line_text(update.line) == notification(
                        result@,
                        old(self)@.progress.verbose,
                    )
                    &&& update.message@ == status_message(final(self)@.totals.available_count)
                },
                Err(error) => {
                    &&& refusal(old(self)@, ticket as int, result@) == Some(error)
                    &&& final(self)@ == old(self)@
                },
            },
    {
        if ticket >= self.dispatched || self.done[ticket] {
            return Err(CompletionError::NotInFlight);
        }
        let expected = full_domain(self.candidates[ticket].as_str(), self.suffix.as_str());
        if !(result.domain == expected) {
            return Err(CompletionError::WrongDomain);
        }
        proof {
            lemma_complete_keeps_valid(self@, ticket as int, result@);
            lemma_tally_bounded(self@.results);
        }
        let ghost before = *self;
        self.totals.record(&result);
        let update = self.progress.on_complete(&result, self.totals.available_count());
        self.done.set(ticket, true);
        self.order.push(ticket);
        self.results.push(result);
        proof {
            assert(positions(self.order@) =~= positions(before.order@).push(ticket as int));
            assert(result_views(self.results@) =~= result_views(before.results@).push(result@));
            assert forall|i: int| 0 <= i < self.done@.len() implies (#[trigger] self.done@[i]
                <==> positions(self.order@).contains(i)) by {
                if i == ticket {
                    assert(positions(self.order@)[self.order@.len() - 1] == i);
                } else {
                    if positions(before.order@).contains(i) {
                        let k = choose|k: int|
                            0 <= k < before.order@.len() && positions(before.order@)[k] == i;
                        assert(positions(self.order@)[k] == i);
                    }
                    if positions(self.order@).contains(i) {
                        let k = choose|k: int|
                            0 <= k < self.order@.len() && positions(self.order@)[k] == i;
                        assert(positions(before.order@)[k] == i);
                    }
                }
            }
        }
        Ok(update)
    }

    /// Whether every candidate has its result.
    pub fn is_finished(&self) -> (yes: bool)
        requires
            self.wf(),
        ensures
            yes == self@.finished(),
    {
        self.results.len() == self.candidates.len()
    }

    /// How many lookups are in flight.
    pub fn in_flight(&self) -> (count: usize)
        requires
            self.wf(),
        ensures
            count == self@.in_flight(),
            count <= self@.limit,
    {
        proof {
            lemma_in_flight_bounded(self@);
        }
        self.dispatched - self.results.len()
    }

    /// How many lookups may be in flight at once.
    pub fn limit(&self) -> (limit: usize)
        ensures
            limit == self@.limit,
    {
        self.limit
    }

    /// How many candidates the scan has.
    pub fn total(&self) -> (total: usize)
        ensures
            total == self@.candidates.len(),
    {
        self.candidates.len()
    }

    /// The results so far, in the order in which the lookups completed.
    pub fn results(&self) -> (results: &Vec<DomainResult>)
        ensures
            result_views(results@) == self@.results,
    {
        &self.results
    }

    /// For each result so far, the position of its candidate.
    pub fn completion_order(&self) -> (order: &Vec<usize>)
        ensures
            positions(order@) == self@.order,
    {
        &self.order
    }

    /// The totals so far.
    pub fn totals(&self) -> (totals: &ScanAggregate)
        requires
            self.wf(),
        ensures
            totals.wf(),
            totals@ == self@.totals,
            totals@ == tally(self@.results),
    {
        &self.totals
    }

    /// Ends the scan and hands out its results and totals.
    pub fn into_parts(self) -> (parts: (Vec<DomainResult>, ScanAggregate))
        requires
            self.wf(),
        ensures
            result_views(parts.0@) == self@.results,
            parts.1.wf(),
            parts.1@ == tally(self@.results),
    {
        (self.results, self.totals)
    }
}

} // verus!

//! What is shown while a scan runs: a line for a completed lookup where one
//! is due, the position of the progress counter, and the status message.

use vstd::prelude::*;
use vstd::string::*;

use crate::outcome::{DomainResult, LookupOutcome, OutcomeView, ResultView};
use crate::text::{decimal, decimal_string};

verus! {

/// The text of an optional string.
pub open spec fn line_text(line: Option<String>) -> Option<Seq<char>> {
    match line {
        Some(text) => Some(text@),
        None => None,
    }
}

/// The line that reports a failed lookup.
pub open spec fn error_line(domain: Seq<char>, reason: Seq<char>) -> Seq<char> {
    "   ERRO: "@ + domain + " ("@ + reason + ")"@
}

/// The line that a completed lookup is announced with, if any. An
/// available domain always has one; every other outcome only in verbose
/// mode.
pub open spec fn notification(result: ResultView, verbose: bool) -> Option<Seq<char>> {
    match result.outcome {
        OutcomeView::Available => Some("DISPONIVEL: "@ + result.domain),
        OutcomeView::Taken { detail } => if verbose {
            Some("   REGISTRADO: "@ + result.domain + " ("@ + detail + ")"@)
        } else {
            None
        },
        OutcomeView::RateLimited => if verbose {
            Some(error_line(result.domain, "rate limited"@))
        } else {
            None
        },
        OutcomeView::TransportError { message } => if verbose {
            Some(error_line(result.domain, message))
        } else {
            None
        },
        OutcomeView::ProtocolError { message } => if verbose {
            Some(error_line(result.domain, message))
        } else {
            None
        },
    }
}

/// The status message while the scan runs: how many domains were found
/// available so far.
pub open spec fn status_message(available: nat) -> Seq<char> {
    decimal(available) + " disponiveis"@
}

/// The status message of a finished scan: how many domains were found
/// available and how many lookups failed.
pub open spec fn closing_message(available: nat, errors: nat) -> Seq<char> {
    decimal(available) + " disponiveis, "@ + decimal(errors) + " erros"@
}

/// What to show after one lookup has completed.
#[derive(Debug, PartialEq, Eq)]
pub struct ProgressUpdate {
    /// How many lookups have completed, this one included.
    pub position: usize,
    /// The line to print at once, if any.
    pub line: Option<String>,
    /// The new status message.
    pub message: String,
}

/// The mathematical value of a `ProgressReporter`.
pub struct ReporterView {
    pub total: nat,
    pub completed: nat,
    pub verbose: bool,
}

/// Counts the completed lookups of a scan and words what is shown of them.
#[derive(Debug)]
pub struct ProgressReporter {
    total: usize,
    completed: usize,
    verbose: bool,
}

impl View for ProgressReporter {
    type V = ReporterView;

    closed spec fn view(&self) -> ReporterView {
        ReporterView {
            total: self.total as nat,
            completed: self.completed as nat,
            verbose: self.verbose,
        }
    }
}

/// The line that reports a failed lookup.
fn error_line_for(domain: &str, reason: &str) -> (line: String)
    ensures
        line@ == error_line(domain@, reason@),
{
    let mut line = String::from_str("   ERRO: ");
    line.append(domain);
    line.append(" (");
    line.append(reason);
    line.append(")");
    line
}

/// The line that a completed lookup is announced with, if any.
pub fn notification_for(result: &DomainResult, verbose: bool) -> (line: Option<String>)
    ensures
        line_text(line) == notification(result@, verbose),
{
    match &result.outcome {
        LookupOutcome::Available => {
            let mut line = String::from_str("DISPONIVEL: ");
            line.append(result.domain.as_str());
            Some(line)
        },
        LookupOutcome::Taken { detail } => {
            if verbose {
                let mut line = String::from_str("   REGISTRADO: ");
                line.append(result.domain.as_str());
                line.append(" (");
                line.append(detail.as_str());
                line.append(")");
                Some(line)
            } else {
                None
            }
        },
        LookupOutcome::RateLimited => {
            if verbose {
                Some(error_line_for(result.domain.as_str(), "rate limited"))
            } else {
                None
            }
        },
        LookupOutcome::TransportError { message } => {
            if verbose {
                Some(error_line_for(result.domain.as_str(), message.as_str()))
            } else {
                None
            }
        },
        LookupOutcome::ProtocolError { message } => {
            if verbose {
                Some(error_line_for(result.domain.as_str(), message.as_str()))
            } else {
                None
            }
        },
    }
}

/// The status message while the scan runs.
pub fn status_message_for(available: usize) -> (message: String)
    ensures
        message@ == status_message(available as nat),
{
    let mut message = decimal_string(available as u64);
    message.append(" disponiveis");
    message
}

/// The status message of a finished scan.
pub fn closing_message_for(available: usize, errors: usize) -> (message: String)
    ensures
        message@ == closing_message(available as nat, errors as nat),
{
    let mut message = decimal_string(available as u64);
    message.append(" disponiveis, ");
    let count = decimal_string(errors as u64);
    message.append(count.as_str());
    message.append(" erros");
    message
}

impl ProgressReporter {
    /// A reporter for a scan of `total` lookups, none of them completed.
    pub fn new(total: usize, verbose: bool) -> (reporter: Self)
        ensures
            reporter@ == (ReporterView { total: total as nat, completed: 0, verbose }),
    {
        ProgressReporter { total, completed: 0, verbose }
    }

    /// How many lookups the scan has.
    pub fn total(&self) -> (total: usize)
        ensures
            total == self@.total,
    {
        self.total
    }

    /// How many lookups have completed.
    pub fn completed(&self) -> (completed: usize)
        ensures
            completed == self@.completed,
    {
        self.completed
    }

    /// Takes note of one completed lookup: the counter advances by one, and
    /// the update holds the counter's new position, the line that announces
    /// the lookup, if one is due, and the status message for the given
    /// number of available domains.
    pub fn on_complete(&mut self, result: &DomainResult, available: usize) -> (update:
        ProgressUpdate)
        requires
            old(self)@.completed < usize::MAX,
        ensures
            final(self)@ == (ReporterView { completed: old(self)@.completed + 1, ..old(self)@ }),
            update.position == old(self)@.completed + 1,
            line_text(update.line) == notification(result@, old(self)@.verbose),
            update.message@ == status_message(available as nat),
    {
        self.completed = self.completed + 1;
        ProgressUpdate {
            position: self.completed,
            line: notification_for(result, self.verbose),
            message: status_message_for(available),
        }
    }
}

} // verus!

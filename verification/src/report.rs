//! The tally of the diagnostics of a run, the line that sums them up, and the
//! outcome that the run reports.
use crate::diagnostic::Severity;
use crate::run_result::RunResult;
use vstd::prelude::*;
use vstd::string::*;

verus! {

/// The character of a decimal digit.
pub open spec fn digit_char(d: nat) -> char {
    (('0' as nat) + d) as char
}

/// The decimal digits of a number, most significant first, with no leading zero.
pub open spec fn decimal(n: nat) -> Seq<char>
    decreases n,
{
    if n < 10 {
        seq![digit_char(n)]
    } else {
        decimal(n / 10).push(digit_char(n % 10))
    }
}

fn digit_text(d: u32) -> (r: &'static str)
    requires
        d < 10,
    ensures
        r@ == seq![digit_char(d as nat)],
{
    proof {
        reveal_strlit("0");
        reveal_strlit("1");
        reveal_strlit("2");
        reveal_strlit("3");
        reveal_strlit("4");
        reveal_strlit("5");
        reveal_strlit("6");
        reveal_strlit("7");
        reveal_strlit("8");
        reveal_strlit("9");
    }
    match d {
        0 => "0",
        1 => "1",
        2 => "2",
        3 => "3",
        4 => "4",
        5 => "5",
        6 => "6",
        7 => "7",
        8 => "8",
        _ => "9",
    }
}

/// The decimal text of a number.
pub fn decimal_text(n: u32) -> (r: String)
    ensures
        r@ == decimal(n as nat),
    decreases n,
{
    if n < 10 {
        String::from_str(digit_text(n))
    } else {
        let mut out = decimal_text(n / 10);
        out.append(digit_text(n % 10));
        out
    }
}

/// `n` followed by the singular noun when `n` is one, else by the plural.
pub open spec fn count_text(n: nat, one: Seq<char>, many: Seq<char>) -> Seq<char> {
    decimal(n) + " "@ + if n == 1 { one } else { many }
}

/// The tag that opens the summary line: `Failed` when there are errors, else
/// `Warning`, right-aligned to nine columns, in bold red or bold yellow when
/// `color`.
pub open spec fn summary_tag(failed: bool, color: bool) -> Seq<char> {
    if failed {
        if color { "\x1b[1;31m   Failed\x1b[0m"@ } else { "   Failed"@ }
    } else {
        if color { "\x1b[1;33m  Warning\x1b[0m"@ } else { "  Warning"@ }
    }
}

/// The summary line of a run that reported `errors` errors and `warnings` other
/// diagnostics, such as `   Failed with 2 errors and 1 warning`.
pub open spec fn summary_line(errors: nat, warnings: nat, color: bool) -> Seq<char> {
    summary_tag(errors > 0, color) + " with "@ + if errors > 0 && warnings > 0 {
        count_text(errors, "error"@, "errors"@) + " and "@ + count_text(warnings, "warning"@, "warnings"@)
    } else if errors > 0 {
        count_text(errors, "error"@, "errors"@)
    } else {
        count_text(warnings, "warning"@, "warnings"@)
    }
}

fn count_phrase(n: u32, one: &str, many: &str) -> (r: String)
    ensures
        r@ == count_text(n as nat, one@, many@),
{
    let mut out = decimal_text(n);
    out.append(" ");
    if n == 1 {
        out.append(one);
    } else {
        out.append(many);
    }
    out
}

/// How many diagnostics of a run were errors, and how many were not.
#[derive(Debug, Clone, Copy, PartialEq, Eq, Structural)]
pub struct DiagnosticReportResult {
    pub error_count: u32,
    pub warning_count: u32,
}

impl DiagnosticReportResult {
    /// The tally of a run that has reported nothing.
    pub fn new() -> (r: DiagnosticReportResult)
        ensures
            r.error_count == 0,
            r.warning_count == 0,
    {
        DiagnosticReportResult { error_count: 0, warning_count: 0 }
    }

    /// Counts one more diagnostic: an error, or anything else as a warning.
    pub fn record(&mut self, severity: Severity)
        requires
            severity == Severity::Error ==> old(self).error_count < u32::MAX,
            severity != Severity::Error ==> old(self).warning_count < u32::MAX,
        ensures
            severity == Severity::Error ==> final(self).error_count == old(self).error_count + 1
                && final(self).warning_count == old(self).warning_count,
            severity != Severity::Error ==> final(self).warning_count == old(self).warning_count + 1
                && final(self).error_count == old(self).error_count,
    {
        match severity {
            Severity::Error => self.error_count = self.error_count + 1,
            _ => self.warning_count = self.warning_count + 1,
        }
    }

    /// The line that sums up the run, or `None` when nothing was reported.
    pub fn summary(&self, color: bool) -> (r: Option<String>)
        ensures
            self.error_count == 0 && self.warning_count == 0 <==> r is None,
            r matches Some(s) ==> s@ == summary_line(self.error_count as nat, self.warning_count as nat, color),
    {
        if self.error_count == 0 && self.warning_count == 0 {
            return None;
        }
        let mut out = if self.error_count > 0 {
            if color {
                String::from_str("\x1b[1;31m   Failed\x1b[0m")
            } else {
                String::from_str("   Failed")
            }
        } else {
            if color {
                String::from_str("\x1b[1;33m  Warning\x1b[0m")
            } else {
                String::from_str("  Warning")
            }
        };
        out.append(" with ");
        if self.error_count > 0 && self.warning_count > 0 {
            let errors = count_phrase(self.error_count, "error", "errors");
            let warnings = count_phrase(self.warning_count, "warning", "warnings");
            out.append(errors.as_str());
            out.append(" and ");
            out.append(warnings.as_str());
        } else if self.error_count > 0 {
            let errors = count_phrase(self.error_count, "error", "errors");
            out.append(errors.as_str());
        } else {
            let warnings = count_phrase(self.warning_count, "warning", "warnings");
            out.append(warnings.as_str());
        }
        Some(out)
    }
}

/// The outcome of a run, from what the command returned (`None` when it failed
/// with an I/O error) and from the tally of its diagnostics (`None` when they could
/// not be written out).
pub open spec fn outcome(command: Option<RunResult>, report: Option<DiagnosticReportResult>) -> RunResult {
    match command {
        Some(RunResult::Succeeded) => match report {
            Some(r) => if r.error_count > 0 { RunResult::CompilationFailed } else { RunResult::Succeeded },
            None => RunResult::IoError,
        },
        Some(other) => other,
        None => RunResult::IoError,
    }
}

/// Settles the outcome of a run: a command that failed keeps its own outcome; one
/// that succeeded fails to compile if an error was reported, and fails with an I/O
/// error if its diagnostics could not be written out.
pub fn run_outcome(command: Option<RunResult>, report: Option<DiagnosticReportResult>) -> (r: RunResult)
    ensures
        r == outcome(command, report),
        r == RunResult::Succeeded ==> (command == Some(RunResult::Succeeded)
            && (report matches Some(t) && t.error_count == 0)),
{
    match command {
        Some(RunResult::Succeeded) => match report {
            Some(t) => {
                if t.error_count > 0 {
                    RunResult::CompilationFailed
                } else {
                    RunResult::Succeeded
                }
            },
            None => RunResult::IoError,
        },
        Some(other) => other,
        None => RunResult::IoError,
    }
}

} // verus!

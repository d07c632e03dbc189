//! The multi-window policy: windows bounded by the tokens that the
//! workload prints.

use crate::command::duration_ms_between;
use crate::error::JouleProfilerError;
use crate::measurement::{Phase, PhaseMeasurementResult, PhaseResult, PhaseToken};
use crate::source::{Metric, SourceEvent, SourceResult};
use crate::util::time::get_timestamp;
use regex::Regex;
use vstd::prelude::*;
use vstd::string::StringExecFns;

verus! {

/// A compiled regular expression; nothing of it is visible here.
#[verifier::external_type_specification]
#[verifier::external_body]
pub struct ExRegex(Regex);

/// Why a pattern is no regular expression; nothing of it is visible here.
#[verifier::external_type_specification]
#[verifier::external_body]
pub struct ExRegexError(regex::Error);

/// Whether a text is a regular expression that can be compiled.
pub uninterp spec fn pattern_compiles(pattern: Seq<char>) -> bool;

/// The text that a regular expression was compiled from.
pub uninterp spec fn regex_text(regex: Regex) -> Seq<char>;

/// What a pattern finds in a line: for a line that it matches, the text
/// of the leftmost match and, if the pattern has a first group that took
/// part in it, the text of that group.
pub uninterp spec fn pattern_captures(pattern: Seq<char>, line: Seq<char>) -> Option<
    (Seq<char>, Option<Seq<char>>),
>;

/// Calls `Regex::new`. Trusted: whether the call succeeds is a matter of
/// the pattern alone, which this crate only names, and the regular
/// expression that it yields is the one of that pattern, as `Regex::as_str`
/// gives the pattern back.
#[verifier::external_body]
fn compile(pattern: &str) -> (r: Result<Regex, regex::Error>)
    ensures
        r is Ok <==> pattern_compiles(pattern@),
        r matches Ok(regex) ==> regex_text(regex) == pattern@,
{
    Regex::new(pattern)
}

/// Calls `to_string` on a `regex::Error`. Trusted, and nothing is claimed
/// of the result.
#[verifier::external_body]
fn explain(e: &regex::Error) -> String {
    e.to_string()
}

/// The texts of what was found in a line.
pub open spec fn captures_text(found: Option<(String, Option<String>)>) -> Option<
    (Seq<char>, Option<Seq<char>>),
> {
    match found {
        Some((whole, Some(group))) => Some((whole@, Some(group@))),
        Some((whole, None)) => Some((whole@, None)),
        None => None,
    }
}

/// The token of what was found in a line: the text of the first group
/// where there is one, else the text of the whole match.
pub open spec fn found_token(found: Option<(Seq<char>, Option<Seq<char>>)>) -> Option<Seq<char>> {
    match found {
        Some((whole, Some(group))) => Some(group),
        Some((whole, None)) => Some(whole),
        None => None,
    }
}

/// The token that a pattern finds in a line, if it matches the line.
pub open spec fn token_in_line(pattern: Seq<char>, line: Seq<char>) -> Option<Seq<char>> {
    found_token(pattern_captures(pattern, line))
}

/// Calls `Regex::captures`, then `Captures::get` for the groups 0 and 1.
/// Trusted: the result is what the text of the regular expression finds in
/// the line, which this crate only names.
#[verifier::external_body]
fn captures_of(regex: &Regex, line: &str) -> (found: Option<(String, Option<String>)>)
    ensures
        captures_text(found) == pattern_captures(regex_text(*regex), line@),
{
    regex.captures(line).map(
        |found| (found[0].to_string(), found.get(1).map(|group| group.as_str().to_string())),
    )
}

/// The pattern that recognizes the boundary tokens in the workload's
/// output.
#[derive(Debug)]
pub struct TokenPattern {
    regex: Regex,
}

impl View for TokenPattern {
    type V = Seq<char>;

    closed spec fn view(&self) -> Seq<char> {
        regex_text(self.regex)
    }
}

/// The token of a match: the text of the first group where there is one,
/// else the text of the whole match.
pub fn token_of(whole: String, group: Option<String>) -> (token: String)
    ensures
        token == (match group {
            Some(text) => text,
            None => whole,
        }),
{
    match group {
        Some(text) => text,
        None => whole,
    }
}

impl TokenPattern {
    /// Compiles `pattern`. A pattern that cannot be compiled, and no other,
    /// is reported, with the pattern, a colon and the reason.
    pub fn new(pattern: &str) -> (r: Result<TokenPattern, JouleProfilerError>)
        ensures
            r is Ok <==> pattern_compiles(pattern@),
            match r {
                Ok(compiled) => compiled@ == pattern@,
                Err(e) => e matches JouleProfilerError::InvalidPattern(text) && (pattern@
                    + ": "@).is_prefix_of(text@),
            },
    {
        match compile(pattern) {
            Ok(regex) => Ok(TokenPattern { regex }),
            Err(e) => {
                let why = explain(&e);
                let mut text = pattern.to_owned();
                text.append(": ");
                let ghost head = text@;
                text.append(why.as_str());
                assert(text@.subrange(0, head.len() as int) =~= head);
                Err(JouleProfilerError::InvalidPattern(text))
            },
        }
    }

    /// The token that `line` carries, if the pattern matches it.
    pub fn token_in(&self, line: &str) -> (token: Option<String>)
        ensures
            crate::measurement::text_of(token) == token_in_line(self@, line@),
    {
        match captures_of(&self.regex, line) {
            Some((whole, group)) => Some(token_of(whole, group)),
            None => None,
        }
    }
}

/// The boundary markers of a run, in the order in which they were met.
#[derive(Debug)]
pub struct PhaseLog {
    phases: Vec<Phase>,
}

impl View for PhaseLog {
    type V = Seq<Phase>;

    closed spec fn view(&self) -> Seq<Phase> {
        self.phases@
    }
}

impl PhaseLog {
    /// The log of a run that starts at `begin_timestamp`: it holds the
    /// start marker.
    pub fn begin(begin_timestamp: u128) -> (log: Self)
        ensures
            log@ == seq![
                Phase { token: PhaseToken::Start, timestamp: begin_timestamp, line_number: None },
            ],
    {
        let mut phases: Vec<Phase> = Vec::new();
        phases.push(
            Phase { token: PhaseToken::Start, timestamp: begin_timestamp, line_number: None },
        );
        PhaseLog { phases }
    }

    /// Records the token found at `timestamp` in the line of index
    /// `line_index`, counted from zero; the marker holds the line's number,
    /// counted from one.
    pub fn token(&mut self, token: String, timestamp: u128, line_index: usize)
        requires
            line_index < usize::MAX,
        ensures
            final(self)@ == old(self)@.push(
                Phase {
                    token: PhaseToken::Token(token),
                    timestamp,
                    line_number: Some((line_index + 1) as usize),
                },
            ),
    {
        self.phases.push(
            Phase { token: PhaseToken::Token(token), timestamp, line_number: Some(line_index + 1) },
        );
    }

    /// Looks for a token in the line of index `line_index` of the
    /// workload's output. A line that the pattern matches is a boundary:
    /// its token is recorded with the current time, and the sources are to
    /// close the window. Any other line changes nothing.
    pub fn on_line(&mut self, pattern: &TokenPattern, line: &str, line_index: usize) -> (command:
        Option<SourceEvent>)
        requires
            line_index < usize::MAX,
        ensures
            command is Some <==> token_in_line(pattern@, line@) is Some,
            match command {
                None => final(self)@ == old(self)@,
                Some(event) => {
                    &&& event == SourceEvent::Phase
                    &&& final(self)@.len() == old(self)@.len() + 1
                    &&& final(self)@.drop_last() == old(self)@
                    &&& final(self)@.last().token.found() == token_in_line(pattern@, line@)
                    &&& final(self)@.last().line_number == Some((line_index + 1) as usize)
                },
            },
    {
        match pattern.token_in(line) {
            Some(token) => {
                let phase_timestamp = get_timestamp();
                self.token(token, phase_timestamp, line_index);
                assert(self@.drop_last() =~= old(self)@);
                Some(SourceEvent::Phase)
            },
            None => None,
        }
    }

    /// Records the end of the workload at `end_timestamp`.
    pub fn end(&mut self, end_timestamp: u128)
        ensures
            final(self)@ == old(self)@.push(
                Phase { token: PhaseToken::End, timestamp: end_timestamp, line_number: None },
            ),
    {
        self.phases.push(
            Phase { token: PhaseToken::End, timestamp: end_timestamp, line_number: None },
        );
    }

    /// The markers recorded so far.
    pub fn phases(&self) -> (phases: &Vec<Phase>)
        ensures
            phases@ == self@,
    {
        &self.phases
    }
}

/// The timestamps of the markers never go back.
pub open spec fn in_time_order(phases: Seq<Phase>) -> bool {
    forall|i: int, j: int|
        0 <= i < j < phases.len() ==> (#[trigger] phases[i]).timestamp <= (
        #[trigger] phases[j]).timestamp
}

/// Whether the timestamps of the markers never go back.
pub fn is_in_time_order(phases: &Vec<Phase>) -> (yes: bool)
    ensures
        yes == in_time_order(phases@),
{
    if phases.len() < 2 {
        return true;
    }
    let mut i: usize = 0;
    while i < phases.len() - 1
        invariant
            phases@.len() >= 2,
            0 <= i <= phases@.len() - 1,
            in_time_order(phases@.take(i + 1)),
        decreases phases@.len() - i,
    {
        if phases[i].timestamp > phases[i + 1].timestamp {
            return false;
        }
        proof {
            let grown = phases@.take(i + 2);
            assert forall|a: int, b: int| 0 <= a < b < grown.len() implies (
            #[trigger] grown[a]).timestamp <= (#[trigger] grown[b]).timestamp by {
                if b <= i {
                    assert(phases@.take(i + 1)[a].timestamp <= phases@.take(i + 1)[b].timestamp);
                } else if a < i {
                    assert(phases@.take(i + 1)[a].timestamp <= phases@.take(
                        i + 1,
                    )[i as int].timestamp);
                }
            }
        }
        i += 1;
    }
    proof {
        assert(phases@.take(i + 1) =~= phases@);
    }
    true
}

/// `window` is the window between the markers `begin` and `end`, with
/// the metrics `metrics`.
pub open spec fn window_between(
    window: PhaseResult,
    begin: Phase,
    end: Phase,
    metrics: Seq<Metric>,
) -> bool {
    &&& window.name@ == begin.token.text() + " -> "@ + end.token.text()
    &&& crate::measurement::text_of(window.start_token) == begin.token.found()
    &&& crate::measurement::text_of(window.end_token) == end.token.found()
    &&& window.start_line == begin.line_number
    &&& window.end_line == end.line_number
    &&& window.metrics@ == metrics
    &&& window.duration_ms == duration_ms_between(begin.timestamp, end.timestamp)
}

/// The result of a run in windows: one window for each pair of
/// consecutive markers, with the metrics of the phase of the same index,
/// and the duration from the first marker to the last.
pub fn measure_phases(phases: &Vec<Phase>, sources_result: &SourceResult, exit_code: i32) -> (
    measured: PhaseMeasurementResult
)
    requires
        phases@.len() >= 1,
        in_time_order(phases@),
        sources_result.measures@.len() >= phases@.len() - 1,
    ensures
        measured.phases@.len() == phases@.len() - 1,
        forall|i: int|
            0 <= i < phases@.len() - 1 ==> window_between(
                #[trigger] measured.phases@[i],
                phases@[i],
                phases@[i + 1],
                sources_result.measures@[i]@,
            ),
        measured.duration_ms == duration_ms_between(
            phases@.first().timestamp,
            phases@.last().timestamp,
        ),
        measured.exit_code == exit_code,
{
    let mut windows: Vec<PhaseResult> = Vec::new();
    let mut i: usize = 0;
    while i < phases.len() - 1
        invariant
            phases@.len() >= 1,
            0 <= i <= phases@.len() - 1,
            in_time_order(phases@),
            sources_result.measures@.len() >= phases@.len() - 1,
            windows@.len() == i,
            forall|j: int|
                0 <= j < i ==> window_between(
                    #[trigger] windows@[j],
                    phases@[j],
                    phases@[j + 1],
                    sources_result.measures@[j]@,
                ),
        decreases phases@.len() - i,
    {
        let begin_phase = &phases[i];
        let end_phase = &phases[i + 1];
        let source_metrics = &sources_result.measures[i];
        let mut metrics: Vec<Metric> = Vec::new();
        let mut m: usize = 0;
        while m < source_metrics.len()
            invariant
                0 <= m <= source_metrics@.len(),
                metrics@ == source_metrics@.take(m as int),
            decreases source_metrics@.len() - m,
        {
            metrics.push(source_metrics[m].clone());
            assert(source_metrics@.take(m as int).push(source_metrics@[m as int])
                =~= source_metrics@.take(m + 1));
            m += 1;
        }
        assert(source_metrics@.take(m as int) =~= source_metrics@);
        let duration_ms = (end_phase.timestamp - begin_phase.timestamp) / 1000;
        windows.push(
            PhaseResult::new(
                &begin_phase.token,
                &end_phase.token,
                begin_phase.line_number,
                end_phase.line_number,
                metrics,
                duration_ms,
            ),
        );
        i += 1;
    }
    let begin_timestamp = phases[0].timestamp;
    let end_timestamp = phases[phases.len() - 1].timestamp;
    PhaseMeasurementResult {
        phases: windows,
        duration_ms: (end_timestamp - begin_timestamp) / 1000,
        exit_code,
    }
}

} // verus!

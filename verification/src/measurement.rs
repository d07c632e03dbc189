//! What a measurement reports: boundary markers, the windows between them
//! and the result of a whole run.

use crate::source::Metric;
use vstd::prelude::*;
use vstd::std_specs::convert::FromSpecImpl;
use vstd::string::StringExecFns;

verus! {

/// A boundary of a measurement window: the start of the workload, a token
/// found in its output, or its end.
#[derive(Debug)]
pub enum PhaseToken {
    Start,
    Token(String),
    End,
}

impl PhaseToken {
    /// The text that stands for the boundary in the name of a window.
    pub open spec fn text(&self) -> Seq<char> {
        match self {
            PhaseToken::Start => "START"@,
            PhaseToken::Token(token) => token@,
            PhaseToken::End => "END"@,
        }
    }

    /// The token's text, for a token found in the output only.
    pub open spec fn found(&self) -> Option<Seq<char>> {
        match self {
            PhaseToken::Token(token) => Some(token@),
            _ => None,
        }
    }

    /// The text that stands for the boundary in the name of a window.
    pub fn to_text(&self) -> (text: String)
        ensures
            text@ == self.text(),
    {
        match self {
            PhaseToken::Start => String::from_str("START"),
            PhaseToken::Token(token) => token.clone(),
            PhaseToken::End => String::from_str("END"),
        }
    }
}

impl Clone for PhaseToken {
    fn clone(&self) -> (copy: Self)
        ensures
            copy == *self,
    {
        match self {
            PhaseToken::Start => PhaseToken::Start,
            PhaseToken::Token(token) => PhaseToken::Token(token.clone()),
            PhaseToken::End => PhaseToken::End,
        }
    }
}

impl From<PhaseToken> for Option<String> {
    fn from(token: PhaseToken) -> (text: Option<String>) {
        match token {
            PhaseToken::Start | PhaseToken::End => None,
            PhaseToken::Token(token) => Some(token),
        }
    }
}

impl FromSpecImpl<PhaseToken> for Option<String> {
    open spec fn obeys_from_spec() -> bool {
        true
    }

    open spec fn from_spec(token: PhaseToken) -> Option<String> {
        match token {
            PhaseToken::Start | PhaseToken::End => None,
            PhaseToken::Token(token) => Some(token),
        }
    }
}

/// Detected token with timestamp
#[derive(Debug)]
pub struct Phase {
    pub token: PhaseToken,
    pub timestamp: u128,
    pub line_number: Option<usize>,
}

impl Clone for Phase {
    fn clone(&self) -> (copy: Self)
        ensures
            copy == *self,
    {
        Phase { token: self.token.clone(), timestamp: self.timestamp, line_number: self.line_number }
    }
}

/// One measurement window: its two boundaries, the metrics measured in it
/// and how long it lasted.
#[derive(Debug)]
pub struct PhaseResult {
    pub name: String,
    pub start_token: Option<String>,
    pub end_token: Option<String>,
    pub start_line: Option<usize>,
    pub end_line: Option<usize>,
    pub metrics: Vec<Metric>,
    pub duration_ms: u128,
}

/// The names of a list of metrics, in order.
pub open spec fn metric_names(metrics: Seq<Metric>) -> Seq<String> {
    metrics.map_values(|m: Metric| m.name)
}

/// The strings that a list of references points to.
pub open spec fn pointed_to(keys: Seq<&String>) -> Seq<String> {
    keys.map_values(|k: &String| *k)
}

/// The view of an optional text.
pub open spec fn text_of(text: Option<String>) -> Option<Seq<char>> {
    match text {
        Some(t) => Some(t@),
        None => None,
    }
}

impl PhaseResult {
    /// The window from `start_phase_token` to `end_phase_token`, named by
    /// the two with an arrow between them.
    pub fn new(
        start_phase_token: &PhaseToken,
        end_phase_token: &PhaseToken,
        start_line: Option<usize>,
        end_line: Option<usize>,
        metrics: Vec<Metric>,
        duration_ms: u128,
    ) -> (window: Self)
        ensures
            window.name@ == start_phase_token.text() + " -> "@ + end_phase_token.text(),
            text_of(window.start_token) == start_phase_token.found(),
            text_of(window.end_token) == end_phase_token.found(),
            window.start_line == start_line,
            window.end_line == end_line,
            window.metrics == metrics,
            window.duration_ms == duration_ms,
    {
        let mut name = start_phase_token.to_text();
        name.append(" -> ");
        name.append(end_phase_token.to_text().as_str());
        Self {
            name,
            start_token: Option::<String>::from(start_phase_token.clone()),
            end_token: Option::<String>::from(end_phase_token.clone()),
            duration_ms,
            start_line,
            end_line,
            metrics,
        }
    }

    /// The names of the window's metrics, in order.
    pub fn extract_keys(&self) -> (keys: Vec<&String>)
        ensures
            pointed_to(keys@) == metric_names(self.metrics@),
    {
        names_of(&self.metrics)
    }
}

/// The names of a list of metrics, in order.
fn names_of(metrics: &Vec<Metric>) -> (keys: Vec<&String>)
    ensures
        pointed_to(keys@) == metric_names(metrics@),
{
    let mut keys: Vec<&String> = Vec::new();
    let mut i: usize = 0;
    while i < metrics.len()
        invariant
            0 <= i <= metrics@.len(),
            keys@.len() == i,
            forall|j: int| 0 <= j < i ==> *(#[trigger] keys@[j]) == metrics@[j].name,
        decreases metrics@.len() - i,
    {
        keys.push(&metrics[i].name);
        i += 1;
    }
    assert(pointed_to(keys@) =~= metric_names(metrics@));
    keys
}

/// The result of a run in windows.
#[derive(Debug)]
pub struct PhaseMeasurementResult {
    /// The metrics of each phase
    pub phases: Vec<PhaseResult>,
    /// Duration in milliseconds
    pub duration_ms: u128,
    /// Command exit code
    pub exit_code: i32,
}

/// The names of the metrics of a list of windows, window after window.
pub open spec fn all_metric_names(phases: Seq<PhaseResult>) -> Seq<String>
    decreases phases.len(),
{
    if phases.len() == 0 {
        Seq::empty()
    } else {
        all_metric_names(phases.drop_last()) + metric_names(phases.last().metrics@)
    }
}

impl PhaseMeasurementResult {
    /// The names of the metrics of all the windows, window after window.
    pub fn extract_keys(&self) -> (keys: Vec<&String>)
        ensures
            pointed_to(keys@) == all_metric_names(self.phases@),
    {
        let mut keys: Vec<&String> = Vec::new();
        let mut p: usize = 0;
        assert(pointed_to(keys@) =~= all_metric_names(self.phases@.take(0)));
        while p < self.phases.len()
            invariant
                0 <= p <= self.phases@.len(),
                pointed_to(keys@) == all_metric_names(self.phases@.take(p as int)),
            decreases self.phases@.len() - p,
        {
            let ghost before = keys@;
            let mut more = self.phases[p].extract_keys();
            let ghost added = more@;
            keys.append(&mut more);
            proof {
                assert(self.phases@.take(p + 1).drop_last() =~= self.phases@.take(p as int));
                assert(self.phases@.take(p + 1).last() == self.phases@[p as int]);
                assert(pointed_to(keys@) =~= pointed_to(before) + pointed_to(added));
            }
            p += 1;
        }
        assert(self.phases@.take(p as int) =~= self.phases@);
        keys
    }
}

/// The result of a run in one window.
#[derive(Debug)]
pub struct MeasurementResult {
    /// Metrics measured
    pub metrics: Vec<Metric>,
    /// Duration in milliseconds
    pub duration_ms: u128,
    /// Command exit code
    pub exit_code: i32,
    /// The number of measures made by the sources
    pub measure_count: u64,
    pub measure_delta: u128,
}

impl MeasurementResult {
    /// The names of the metrics, in order.
    pub fn extract_keys(&self) -> (keys: Vec<&String>)
        ensures
            pointed_to(keys@) == metric_names(self.metrics@),
    {
        names_of(&self.metrics)
    }
}

} // verus!

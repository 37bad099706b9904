//! Per-job bookkeeping for a supervised worker process: status lines from
//! the error stream become typed events, the terminal payload candidate is
//! tracked last-one-wins, and the exit status plus captured payload reduce
//! to exactly one outcome.

use vstd::prelude::*;
use crate::line_protocol::{classify, classify_spec, LineEvent, LineEventModel, RawConfig};

verus! {

/// The abstract form of a status event.
pub enum StatusEventModel {
    Progress(int),
    Info(Seq<u8>),
    Warning(Seq<u8>),
    Error(Seq<u8>),
}

/// A status event published to the job's status sink while it runs.
pub enum StatusEvent {
    Progress(i32),
    Info(Vec<u8>),
    Warning(Vec<u8>),
    Error(Vec<u8>),
}

impl View for StatusEvent {
    type V = StatusEventModel;

    open spec fn view(&self) -> StatusEventModel {
        match self {
            StatusEvent::Progress(n) => StatusEventModel::Progress(*n as int),
            StatusEvent::Info(m) => StatusEventModel::Info(m@),
            StatusEvent::Warning(m) => StatusEventModel::Warning(m@),
            StatusEvent::Error(m) => StatusEventModel::Error(m@),
        }
    }
}

/// Why a job failed.
#[derive(Clone, Copy, PartialEq, Eq, Structural, Debug)]
pub enum FailReason {
    /// The worker process could not be started.
    Launch,
    /// One of the worker's output pipes could not be opened.
    Stream,
    /// The worker exited unsuccessfully.
    ExitStatus,
    /// The worker exited cleanly but the required terminal payload is
    /// missing or empty.
    NoPayload,
}

/// The abstract form of a job's single outcome.
pub enum JobOutcomeModel {
    Success(Seq<u8>),
    Failure(Option<int>, FailReason),
}

/// The single outcome of one supervised job.
pub enum JobOutcome {
    Success(Vec<u8>),
    Failure(Option<i32>, FailReason),
}

impl View for JobOutcome {
    type V = JobOutcomeModel;

    open spec fn view(&self) -> JobOutcomeModel {
        match self {
            JobOutcome::Success(p) => JobOutcomeModel::Success(p@),
            JobOutcome::Failure(c, r) => JobOutcomeModel::Failure(
                match c {
                    Some(v) => Some(*v as int),
                    None => None,
                },
                *r,
            ),
        }
    }
}

/// Whether a job must produce a terminal payload, or a clean exit alone
/// confirms it.
#[derive(Clone, Copy, PartialEq, Eq, Structural)]
pub enum PayloadRule {
    Required,
    ConfirmationOnly,
}

/// Where a job's terminal payload comes from: `SUCCESS:` lines on the
/// error stream, or raw structured-data lines on the output stream.
#[derive(Clone, Copy, PartialEq, Eq, Structural)]
pub enum PayloadSource {
    SuccessLine,
    RawLine,
}

/// The classification the error stream uses: raw openers never match
/// there.
pub open spec fn no_raw() -> RawConfig {
    RawConfig { bracket: false, brace: false }
}

/// What one job has captured so far from its two streams.
pub struct JobState {
    /// Last `SUCCESS:` payload seen on the error stream.
    pub last_success: Option<Vec<u8>>,
    /// Last raw structured-data line seen on the output stream.
    pub last_raw: Option<Vec<u8>>,
    /// Which raw openers the output stream accepts for this job.
    pub cfg: RawConfig,
}

impl JobState {
    pub open spec fn spec_success(self) -> Option<Seq<u8>> {
        match self.last_success {
            Some(v) => Some(v@),
            None => None,
        }
    }

    pub open spec fn spec_raw(self) -> Option<Seq<u8>> {
        match self.last_raw {
            Some(v) => Some(v@),
            None => None,
        }
    }

    /// A job that has seen nothing yet.
    pub fn new(cfg: RawConfig) -> (s: Self)
        ensures
            s.spec_success() is None,
            s.spec_raw() is None,
            s.cfg == cfg,
    {
        JobState { last_success: None, last_raw: None, cfg }
    }

    /// Take in one line of the error stream: status lines come back as the
    /// event to publish at once; a `SUCCESS:` line is captured silently,
    /// overwriting any earlier candidate; everything else is ignored.
    pub fn observe_err_line(&mut self, line: &[u8]) -> (ev: Option<StatusEvent>)
        ensures
            final(self).cfg == old(self).cfg,
            final(self).spec_raw() == old(self).spec_raw(),
            match classify_spec(line@, no_raw()) {
                LineEventModel::Progress(n) => (ev matches Some(e) && e@
                    == StatusEventModel::Progress(n)) && final(self).spec_success() == old(
                    self,
                ).spec_success(),
                LineEventModel::Info(m) => (ev matches Some(e) && e@ == StatusEventModel::Info(m))
                    && final(self).spec_success() == old(self).spec_success(),
                LineEventModel::Warning(m) => (ev matches Some(e) && e@
                    == StatusEventModel::Warning(m)) && final(self).spec_success() == old(
                    self,
                ).spec_success(),
                LineEventModel::Error(m) => (ev matches Some(e) && e@ == StatusEventModel::Error(
                    m,
                )) && final(self).spec_success() == old(self).spec_success(),
                LineEventModel::Success(p) => ev is None && final(self).spec_success() == Some(p),
                LineEventModel::Raw(_) => ev is None && final(self).spec_success() == old(
                    self,
                ).spec_success(),
                LineEventModel::Other => ev is None && final(self).spec_success() == old(
                    self,
                ).spec_success(),
            },
    {
        let cfg = RawConfig::none();
        proof {
            assert(cfg == no_raw());
        }
        match classify(line, cfg) {
            LineEvent::Progress(n) => Some(StatusEvent::Progress(n)),
            LineEvent::Info(m) => Some(StatusEvent::Info(m)),
            LineEvent::Warning(m) => Some(StatusEvent::Warning(m)),
            LineEvent::Error(m) => Some(StatusEvent::Error(m)),
            LineEvent::Success(p) => {
                self.last_success = Some(p);
                None
            },
            LineEvent::Raw(_) => None,
            LineEvent::Other => None,
        }
    }

    /// Take in one line of the output stream: only a raw structured-data
    /// line this job accepts is retained, last one wins; everything else
    /// is drained and dropped.
    pub fn observe_out_line(&mut self, line: &[u8])
        ensures
            final(self).cfg == old(self).cfg,
            final(self).spec_success() == old(self).spec_success(),
            match classify_spec(line@, old(self).cfg) {
                LineEventModel::Raw(p) => final(self).spec_raw() == Some(p),
                LineEventModel::Progress(_) => final(self).spec_raw() == old(self).spec_raw(),
                LineEventModel::Info(_) => final(self).spec_raw() == old(self).spec_raw(),
                LineEventModel::Warning(_) => final(self).spec_raw() == old(self).spec_raw(),
                LineEventModel::Error(_) => final(self).spec_raw() == old(self).spec_raw(),
                LineEventModel::Success(_) => final(self).spec_raw() == old(self).spec_raw(),
                LineEventModel::Other => final(self).spec_raw() == old(self).spec_raw(),
            },
    {
        let cfg = self.cfg;
        match classify(line, cfg) {
            LineEvent::Raw(p) => {
                self.last_raw = Some(p);
            },
            _ => {},
        }
    }

    /// The terminal payload candidate this job's rule reads.
    pub fn take_payload(self, source: PayloadSource) -> (p: Option<Vec<u8>>)
        ensures
            match p {
                Some(v) => spec_picked(self, source) == Some(v@),
                None => spec_picked(self, source) is None,
            },
    {
        match source {
            PayloadSource::SuccessLine => self.last_success,
            PayloadSource::RawLine => self.last_raw,
        }
    }
}

/// The payload candidate a job's source selects.
pub open spec fn spec_picked(s: JobState, source: PayloadSource) -> Option<Seq<u8>> {
    match source {
        PayloadSource::SuccessLine => s.spec_success(),
        PayloadSource::RawLine => s.spec_raw(),
    }
}

pub open spec fn opt_int(c: Option<i32>) -> Option<int> {
    match c {
        Some(v) => Some(v as int),
        None => None,
    }
}

/// What the empty-payload case reduces to under each rule.
pub open spec fn spec_no_payload_case(
    rule: PayloadRule,
    default_payload: Seq<u8>,
    exit_code: Option<int>,
) -> JobOutcomeModel {
    if rule is ConfirmationOnly {
        JobOutcomeModel::Success(default_payload)
    } else {
        JobOutcomeModel::Failure(exit_code, FailReason::NoPayload)
    }
}

/// The single outcome of a job: a failed exit fails the job; a clean exit
/// with a non-empty captured payload succeeds with it; a clean exit
/// without one succeeds with the default payload only for
/// confirmation-only jobs and fails payload-required jobs.
pub open spec fn spec_finalize(
    payload: Option<Seq<u8>>,
    rule: PayloadRule,
    default_payload: Seq<u8>,
    exit_success: bool,
    exit_code: Option<int>,
) -> JobOutcomeModel {
    if !exit_success {
        JobOutcomeModel::Failure(exit_code, FailReason::ExitStatus)
    } else {
        match payload {
            Some(p) => if p.len() > 0 {
                JobOutcomeModel::Success(p)
            } else {
                spec_no_payload_case(rule, default_payload, exit_code)
            },
            None => spec_no_payload_case(rule, default_payload, exit_code),
        }
    }
}

/// Reduce a drained job to its one outcome.
pub fn finalize(
    state: JobState,
    source: PayloadSource,
    rule: PayloadRule,
    default_payload: Vec<u8>,
    exit_success: bool,
    exit_code: Option<i32>,
) -> (o: JobOutcome)
    ensures
        o@ == spec_finalize(
            spec_picked(state, source),
            rule,
            default_payload@,
            exit_success,
            opt_int(exit_code),
        ),
{
    if !exit_success {
        return JobOutcome::Failure(exit_code, FailReason::ExitStatus);
    }
    match state.take_payload(source) {
        Some(p) => {
            if p.len() > 0 {
                JobOutcome::Success(p)
            } else {
                no_payload_outcome(rule, default_payload, exit_code)
            }
        },
        None => no_payload_outcome(rule, default_payload, exit_code),
    }
}

fn no_payload_outcome(rule: PayloadRule, default_payload: Vec<u8>, exit_code: Option<i32>) -> (o:
    JobOutcome)
    ensures
        o@ == spec_no_payload_case(rule, default_payload@, opt_int(exit_code)),
{
    match rule {
        PayloadRule::ConfirmationOnly => JobOutcome::Success(default_payload),
        PayloadRule::Required => JobOutcome::Failure(exit_code, FailReason::NoPayload),
    }
}

/// The outcome of a job whose worker never started.
pub fn launch_failure() -> (o: JobOutcome)
    ensures
        o@ == JobOutcomeModel::Failure(None, FailReason::Launch),
{
    JobOutcome::Failure(None, FailReason::Launch)
}

/// The outcome of a job whose output pipes could not be opened.
pub fn stream_failure() -> (o: JobOutcome)
    ensures
        o@ == JobOutcomeModel::Failure(None, FailReason::Stream),
{
    JobOutcome::Failure(None, FailReason::Stream)
}

impl FailReason {
    /// A fixed human-readable description of the failure class.
    pub fn describe(&self) -> (m: String)
        ensures
            self is Launch ==> m@ == "the worker process could not be started"@,
            self is Stream ==> m@ == "the worker's output could not be opened"@,
            self is ExitStatus ==> m@ == "the worker exited unsuccessfully"@,
            self is NoPayload ==> m@ == "the worker produced no terminal payload"@,
    {
        match self {
            FailReason::Launch => "the worker process could not be started".to_owned(),
            FailReason::Stream => "the worker's output could not be opened".to_owned(),
            FailReason::ExitStatus => "the worker exited unsuccessfully".to_owned(),
            FailReason::NoPayload => "the worker produced no terminal payload".to_owned(),
        }
    }
}

} // verus!

//! The two record shapes the store persists, plus the legacy shape that the
//! first-generation schema used and that migration carries forward.

use vstd::prelude::*;

verus! {

/// One recorded invocation of the external agent: the prompt it was given,
/// what it answered, and how it exited. `id` is the caller-chosen primary
/// key; `session_id` groups runs into one conversation and may be empty.
#[derive(Debug, PartialEq)]
pub struct Run {
    pub id: String,
    pub session_id: String,
    pub timestamp: i64,
    pub agent: String,
    pub model: String,
    pub input: String,
    pub output: String,
    pub tools_used: String,
    pub exit_status: i32,
}

impl Clone for Run {
    fn clone(&self) -> (r: Self)
        ensures
            r == *self,
    {
        Run {
            id: self.id.clone(),
            session_id: self.session_id.clone(),
            timestamp: self.timestamp,
            agent: self.agent.clone(),
            model: self.model.clone(),
            input: self.input.clone(),
            output: self.output.clone(),
            tools_used: self.tools_used.clone(),
            exit_status: self.exit_status,
        }
    }
}

/// One line of streamed output attributed to a run. `id` is assigned by the
/// store on insert, monotonically; queries order log lines by `timestamp`,
/// not by `id`.
#[derive(Debug, PartialEq)]
pub struct RunLog {
    pub id: i64,
    pub run_id: String,
    pub log_line: String,
    pub log_type: String,
    pub timestamp: i64,
}

impl Clone for RunLog {
    fn clone(&self) -> (r: Self)
        ensures
            r == *self,
    {
        RunLog {
            id: self.id,
            run_id: self.run_id.clone(),
            log_line: self.log_line.clone(),
            log_type: self.log_type.clone(),
            timestamp: self.timestamp,
        }
    }
}

/// A run as the first-generation schema stored it: no session, model, tool
/// list or exit status. Migration keeps these rows readable by carrying
/// them into the current shape with declared defaults.
#[derive(Debug, PartialEq)]
pub struct LegacyRun {
    pub id: String,
    pub timestamp: i64,
    pub agent: String,
    pub input: String,
    pub output: String,
}

impl Clone for LegacyRun {
    fn clone(&self) -> (r: Self)
        ensures
            r == *self,
    {
        LegacyRun {
            id: self.id.clone(),
            timestamp: self.timestamp,
            agent: self.agent.clone(),
            input: self.input.clone(),
            output: self.output.clone(),
        }
    }
}

} // verus!

use vstd::prelude::*;
use crate::duration::{encode_duration, spec_encode_duration};

verus! {

/// Abstraction of an idle trigger: what the service is told when one is
/// attached to a job definition.
pub ghost struct IdleTriggerView {
    pub id: Seq<char>,
    pub execution_time_limit: Seq<char>,
    pub repetition_interval: Seq<char>,
    pub repetition_stop_at_duration_end: bool,
}

/// Abstraction of a logon trigger; a start delay comes on top of the
/// idle trigger's fields.
pub ghost struct LogonTriggerView {
    pub id: Seq<char>,
    pub execution_time_limit: Seq<char>,
    pub repetition_interval: Seq<char>,
    pub repetition_stop_at_duration_end: bool,
    pub delay: Seq<char>,
}

/// A trigger that starts a job once the machine is idle.
///
/// Both duration fields hold the service's `PT<seconds>S` wire form.
#[derive(Debug, Clone)]
pub struct TaskIdleTrigger {
    pub id: String,
    pub execution_time_limit: String,
    pub repetition_interval: String,
    pub repetition_stop_at_duration_end: bool,
}

impl View for TaskIdleTrigger {
    type V = IdleTriggerView;

    open spec fn view(&self) -> IdleTriggerView {
        IdleTriggerView {
            id: self.id@,
            execution_time_limit: self.execution_time_limit@,
            repetition_interval: self.repetition_interval@,
            repetition_stop_at_duration_end: self.repetition_stop_at_duration_end,
        }
    }
}

impl TaskIdleTrigger {
    /// Builds an idle trigger; the time limit and repetition interval
    /// are given in whole seconds and stored in wire form.
    pub fn new(
        id: &str,
        execution_time_limit_secs: u64,
        repetition_interval_secs: u64,
        repetition_stop_at_duration_end: bool,
    ) -> (r: Self)
        ensures
            r@ == (IdleTriggerView {
                id: id@,
                execution_time_limit: spec_encode_duration(execution_time_limit_secs as nat),
                repetition_interval: spec_encode_duration(repetition_interval_secs as nat),
                repetition_stop_at_duration_end,
            }),
    {
        TaskIdleTrigger {
            id: id.to_owned(),
            execution_time_limit: encode_duration(execution_time_limit_secs),
            repetition_interval: encode_duration(repetition_interval_secs),
            repetition_stop_at_duration_end,
        }
    }
}

/// A trigger that starts a job when a user logs on, after a delay.
///
/// All three duration fields hold the service's `PT<seconds>S` wire form.
#[derive(Debug, Clone)]
pub struct TaskLogonTrigger {
    pub id: String,
    pub execution_time_limit: String,
    pub repetition_interval: String,
    pub repetition_stop_at_duration_end: bool,
    pub delay: String,
}

impl View for TaskLogonTrigger {
    type V = LogonTriggerView;

    open spec fn view(&self) -> LogonTriggerView {
        LogonTriggerView {
            id: self.id@,
            execution_time_limit: self.execution_time_limit@,
            repetition_interval: self.repetition_interval@,
            repetition_stop_at_duration_end: self.repetition_stop_at_duration_end,
            delay: self.delay@,
        }
    }
}

impl TaskLogonTrigger {
    /// Builds a logon trigger; every time span is given in whole
    /// seconds and stored in wire form.
    pub fn new(
        id: &str,
        execution_time_limit_secs: u64,
        repetition_interval_secs: u64,
        repetition_stop_at_duration_end: bool,
        delay_secs: u64,
    ) -> (r: Self)
        ensures
            r@ == (LogonTriggerView {
                id: id@,
                execution_time_limit: spec_encode_duration(execution_time_limit_secs as nat),
                repetition_interval: spec_encode_duration(repetition_interval_secs as nat),
                repetition_stop_at_duration_end,
                delay: spec_encode_duration(delay_secs as nat),
            }),
    {
        TaskLogonTrigger {
            id: id.to_owned(),
            execution_time_limit: encode_duration(execution_time_limit_secs),
            repetition_interval: encode_duration(repetition_interval_secs),
            repetition_stop_at_duration_end,
            delay: encode_duration(delay_secs),
        }
    }
}

} // verus!

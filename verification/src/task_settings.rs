use vstd::prelude::*;
use crate::duration::{encode_duration, spec_encode_duration};

verus! {

/// Abstraction of the nested idle-settings object.
pub ghost struct IdleSettingsView {
    pub stop_on_idle_end: bool,
    pub restart_on_idle: bool,
    pub idle_duration: Seq<char>,
    pub wait_timeout: Seq<char>,
}

/// Abstraction of the job-wide execution policy.
pub ghost struct SettingsView {
    pub idle_settings: Option<IdleSettingsView>,
    pub run_only_if_idle: bool,
    pub wake_to_run: bool,
    pub execution_time_limit: Seq<char>,
    pub disallow_start_if_on_batteries: bool,
    pub allow_hard_terminate: bool,
}

/// How a job behaves around machine idleness.
///
/// Both duration fields hold the service's `PT<seconds>S` wire form.
#[derive(Debug, Clone)]
pub struct IdleSettings {
    pub stop_on_idle_end: bool,
    pub restart_on_idle: bool,
    pub idle_duration: String,
    pub wait_timeout: String,
}

impl View for IdleSettings {
    type V = IdleSettingsView;

    open spec fn view(&self) -> IdleSettingsView {
        IdleSettingsView {
            stop_on_idle_end: self.stop_on_idle_end,
            restart_on_idle: self.restart_on_idle,
            idle_duration: self.idle_duration@,
            wait_timeout: self.wait_timeout@,
        }
    }
}

impl IdleSettings {
    /// Builds idle settings; both time spans are given in whole seconds
    /// and stored in wire form.
    pub fn new(
        stop_on_idle_end: bool,
        restart_on_idle: bool,
        idle_duration_secs: u64,
        wait_timeout_secs: u64,
    ) -> (r: Self)
        ensures
            r@ == (IdleSettingsView {
                stop_on_idle_end,
                restart_on_idle,
                idle_duration: spec_encode_duration(idle_duration_secs as nat),
                wait_timeout: spec_encode_duration(wait_timeout_secs as nat),
            }),
    {
        IdleSettings {
            stop_on_idle_end,
            restart_on_idle,
            idle_duration: encode_duration(idle_duration_secs),
            wait_timeout: encode_duration(wait_timeout_secs),
        }
    }
}

/// Job-wide execution policy written onto a definition in one call.
///
/// An absent `idle_settings` leaves the service's defaults untouched.
#[derive(Debug, Clone)]
pub struct TaskSettings {
    pub idle_settings: Option<IdleSettings>,
    pub run_only_if_idle: bool,
    pub wake_to_run: bool,
    pub execution_time_limit: String,
    pub disallow_start_if_on_batteries: bool,
    pub allow_hard_terminate: bool,
}

impl View for TaskSettings {
    type V = SettingsView;

    open spec fn view(&self) -> SettingsView {
        SettingsView {
            idle_settings: self.idle_settings.deep_view(),
            run_only_if_idle: self.run_only_if_idle,
            wake_to_run: self.wake_to_run,
            execution_time_limit: self.execution_time_limit@,
            disallow_start_if_on_batteries: self.disallow_start_if_on_batteries,
            allow_hard_terminate: self.allow_hard_terminate,
        }
    }
}

impl DeepView for IdleSettings {
    type V = IdleSettingsView;

    open spec fn deep_view(&self) -> IdleSettingsView {
        self.view()
    }
}

impl TaskSettings {
    /// Builds the execution policy; the time limit is given in whole
    /// seconds and stored in wire form.
    pub fn new(
        idle_settings: Option<IdleSettings>,
        run_only_if_idle: bool,
        wake_to_run: bool,
        execution_time_limit_secs: u64,
        disallow_start_if_on_batteries: bool,
        allow_hard_terminate: bool,
    ) -> (r: Self)
        ensures
            r@ == (SettingsView {
                idle_settings: idle_settings.deep_view(),
                run_only_if_idle,
                wake_to_run,
                execution_time_limit: spec_encode_duration(execution_time_limit_secs as nat),
                disallow_start_if_on_batteries,
                allow_hard_terminate,
            }),
    {
        TaskSettings {
            idle_settings,
            run_only_if_idle,
            wake_to_run,
            execution_time_limit: encode_duration(execution_time_limit_secs),
            disallow_start_if_on_batteries,
            allow_hard_terminate,
        }
    }
}

} // verus!

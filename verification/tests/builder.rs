use task_scheduler::task::{RunLevel, Task, TriggerKind};
use task_scheduler::task_action::TaskAction;
use task_scheduler::task_settings::{IdleSettings, TaskSettings};
use task_scheduler::task_trigger::{TaskIdleTrigger, TaskLogonTrigger};

#[test]
fn new_builder_is_blank() {
    let t = Task::new("\\Test").unwrap();
    assert_eq!(t.folder_path, "\\Test");
    assert!(t.definition.author.is_none());
    assert!(t.definition.description.is_none());
    assert!(t.definition.hidden.is_none());
    assert!(t.definition.triggers.is_empty());
    assert!(t.definition.actions.is_empty());
    assert!(t.definition.settings.is_none());
    assert!(t.definition.principal.is_none());
    assert!(t.definition.xml.is_none());
    assert!(t.definition.enabled);
}

#[test]
fn idle_trigger_adds_one_enabled_entry() {
    let t = Task::new("\\Test").unwrap();
    let trig = TaskIdleTrigger::new("idle1", 30, 10, true);
    let t = t.idle_trigger(trig).unwrap();
    assert_eq!(t.definition.triggers.len(), 1);
    let entry = &t.definition.triggers[0];
    assert!(entry.enabled);
    match &entry.kind {
        TriggerKind::Idle(it) => {
            assert_eq!(it.id, "idle1");
            assert_eq!(it.execution_time_limit, "PT30S");
            assert_eq!(it.repetition_interval, "PT10S");
            assert!(it.repetition_stop_at_duration_end);
        },
        TriggerKind::Logon(_) => panic!("expected an idle trigger"),
    }
}

#[test]
fn logon_trigger_adds_one_enabled_entry() {
    let t = Task::new("\\Test").unwrap();
    let trig = TaskLogonTrigger::new("logon1", 120, 60, false, 15);
    let t = t.logon_trigger(trig).unwrap();
    assert_eq!(t.definition.triggers.len(), 1);
    let entry = &t.definition.triggers[0];
    assert!(entry.enabled);
    match &entry.kind {
        TriggerKind::Logon(lt) => {
            assert_eq!(lt.id, "logon1");
            assert_eq!(lt.execution_time_limit, "PT120S");
            assert_eq!(lt.repetition_interval, "PT60S");
            assert!(!lt.repetition_stop_at_duration_end);
            assert_eq!(lt.delay, "PT15S");
        },
        TriggerKind::Idle(_) => panic!("expected a logon trigger"),
    }
}

#[test]
fn every_added_trigger_is_enabled() {
    let t = Task::new("\\Test")
        .unwrap()
        .idle_trigger(TaskIdleTrigger::new("a", 1, 2, false))
        .unwrap()
        .logon_trigger(TaskLogonTrigger::new("b", 3, 4, true, 5))
        .unwrap()
        .idle_trigger(TaskIdleTrigger::new("c", 6, 7, true))
        .unwrap();
    assert_eq!(t.definition.triggers.len(), 3);
    for entry in &t.definition.triggers {
        assert!(entry.enabled);
    }
}

#[test]
fn fluent_chain_accumulates_configuration() {
    let settings = TaskSettings::new(
        Some(IdleSettings::new(true, false, 600, 3600)),
        false,
        true,
        7200,
        false,
        true,
    );
    let t = Task::new("\\MyApp\\Jobs")
        .unwrap()
        .author("svc")
        .unwrap()
        .description("nightly maintenance")
        .unwrap()
        .set_hidden(true)
        .unwrap()
        .principal(RunLevel::HIGHEST, "p1", "user")
        .unwrap()
        .settings(settings)
        .unwrap()
        .exec_action(TaskAction::new("act1", "C:\\app.exe", "C:\\", "--flag"))
        .unwrap();
    assert_eq!(t.definition.author.as_deref(), Some("svc"));
    assert_eq!(t.definition.description.as_deref(), Some("nightly maintenance"));
    assert_eq!(t.definition.hidden, Some(true));
    let p = t.definition.principal.as_ref().unwrap();
    assert!(matches!(p.run_level, RunLevel::HIGHEST));
    assert_eq!(p.id, "p1");
    assert_eq!(p.user_id, "user");
    let s = t.definition.settings.as_ref().unwrap();
    assert_eq!(s.execution_time_limit, "PT7200S");
    assert!(!s.run_only_if_idle);
    assert!(s.wake_to_run);
    assert!(!s.disallow_start_if_on_batteries);
    assert!(s.allow_hard_terminate);
    let idle = s.idle_settings.as_ref().unwrap();
    assert!(idle.stop_on_idle_end);
    assert!(!idle.restart_on_idle);
    assert_eq!(idle.idle_duration, "PT600S");
    assert_eq!(idle.wait_timeout, "PT3600S");
    assert_eq!(t.definition.actions.len(), 1);
    assert_eq!(t.definition.actions[0].id, "act1");
    assert_eq!(t.definition.actions[0].path, "C:\\app.exe");
    assert_eq!(t.definition.actions[0].working_dir, "C:\\");
    assert_eq!(t.definition.actions[0].args, "--flag");
}

#[test]
fn from_xml_discards_prior_configuration() {
    let t = Task::new("\\Test")
        .unwrap()
        .author("someone")
        .unwrap()
        .idle_trigger(TaskIdleTrigger::new("a", 1, 2, false))
        .unwrap();
    let t = t.from_xml(String::from("<Task/>")).unwrap();
    assert_eq!(t.folder_path, "\\Test");
    assert_eq!(t.definition.xml.as_deref(), Some("<Task/>"));
    assert!(t.definition.author.is_none());
    assert!(t.definition.triggers.is_empty());
}

use task_scheduler::error::TaskError;
use task_scheduler::store::{RegisteredTask, TaskFolder, TaskService};
use task_scheduler::task::{Task, TriggerKind};
use task_scheduler::task_action::TaskAction;
use task_scheduler::task_trigger::TaskIdleTrigger;

fn folder(path: &str, subfolders: Vec<TaskFolder>) -> TaskFolder {
    TaskFolder { path: String::from(path), tasks: Vec::new(), subfolders }
}

fn service_with_folders(subfolders: Vec<TaskFolder>) -> TaskService {
    TaskService { root: folder("\\", subfolders) }
}

fn job(path: &str, name: &str, action_path: &str) -> Task {
    Task::new(path)
        .unwrap()
        .exec_action(TaskAction::new("a", action_path, "", ""))
        .unwrap()
}

#[test]
fn register_then_lookup_returns_the_job() {
    let mut svc = service_with_folders(vec![folder("\\Test", vec![])]);
    job("\\Test", "MyJob", "C:\\x.exe").register("MyJob", &mut svc).unwrap();
    let rt = Task::get_task("\\Test", "MyJob", &svc).unwrap();
    assert_eq!(rt.name, "MyJob");
    assert_eq!(rt.definition.actions[0].path, "C:\\x.exe");
}

#[test]
fn register_twice_replaces_the_first() {
    let mut svc = service_with_folders(vec![folder("\\Test", vec![])]);
    job("\\Test", "MyJob", "C:\\first.exe").register("MyJob", &mut svc).unwrap();
    job("\\Test", "MyJob", "C:\\second.exe").register("MyJob", &mut svc).unwrap();
    let rt = Task::get_task("\\Test", "MyJob", &svc).unwrap();
    assert_eq!(rt.definition.actions.len(), 1);
    assert_eq!(rt.definition.actions[0].path, "C:\\second.exe");
    // the job was overwritten, not duplicated
    let all = svc.list_all("\\Test").unwrap();
    assert_eq!(all.len(), 1);
}

#[test]
fn registered_job_is_enabled() {
    let mut svc = service_with_folders(vec![folder("\\Test", vec![])]);
    let rt = job("\\Test", "J", "C:\\x.exe").register("J", &mut svc).unwrap();
    assert!(rt.definition.enabled);
}

#[test]
fn register_into_missing_folder_fails() {
    let mut svc = service_with_folders(vec![folder("\\Test", vec![])]);
    let r = job("\\Absent", "J", "C:\\x.exe").register("J", &mut svc);
    assert_eq!(r.err(), Some(TaskError::RegistrationFailed));
}

#[test]
fn lookup_of_missing_job_is_not_found() {
    let svc = service_with_folders(vec![folder("\\Test", vec![])]);
    let r = Task::get_task("\\Test", "NoSuchJob", &svc);
    assert_eq!(r.err(), Some(TaskError::NotFound));
    let r = Task::get_task("\\NoSuchFolder", "NoSuchJob", &svc);
    assert_eq!(r.err(), Some(TaskError::NotFound));
}

#[test]
fn remove_of_missing_job_is_an_error() {
    let mut svc = service_with_folders(vec![folder("\\Test", vec![])]);
    assert_eq!(
        Task::delete_task("\\Test", "NoSuchJob", &mut svc),
        Err(TaskError::NotFound)
    );
}

#[test]
fn remove_is_not_idempotent() {
    let mut svc = service_with_folders(vec![folder("\\Test", vec![])]);
    job("\\Test", "J", "C:\\x.exe").register("J", &mut svc).unwrap();
    assert_eq!(Task::delete_task("\\Test", "J", &mut svc), Ok(()));
    // deleting the job again is an error, never a silent no-op
    assert_eq!(Task::delete_task("\\Test", "J", &mut svc), Err(TaskError::NotFound));
    assert_eq!(
        Task::get_task("\\Test", "J", &svc).err(),
        Some(TaskError::NotFound)
    );
}

#[test]
fn list_all_walks_three_levels() {
    let mut svc = service_with_folders(vec![folder(
        "\\A",
        vec![
            folder("\\A\\B1", vec![folder("\\A\\B1\\C", vec![])]),
            folder("\\A\\B2", vec![]),
        ],
    )]);
    job("\\A", "top1", "C:\\1.exe").register("top1", &mut svc).unwrap();
    job("\\A", "top2", "C:\\2.exe").register("top2", &mut svc).unwrap();
    job("\\A\\B1", "mid1", "C:\\3.exe").register("mid1", &mut svc).unwrap();
    job("\\A\\B2", "mid2", "C:\\4.exe").register("mid2", &mut svc).unwrap();
    job("\\A\\B1\\C", "leaf1", "C:\\5.exe").register("leaf1", &mut svc).unwrap();

    let walker = Task::new("\\A").unwrap();
    let all = walker.get_registered_tasks(&svc).unwrap();
    assert_eq!(all.len(), 5);
    let mut names: Vec<&str> = all.iter().map(|t| t.name.as_str()).collect();
    names.sort();
    assert_eq!(names, vec!["leaf1", "mid1", "mid2", "top1", "top2"]);
}

#[test]
fn list_all_includes_hidden_jobs() {
    let mut svc = service_with_folders(vec![folder("\\Test", vec![])]);
    Task::new("\\Test")
        .unwrap()
        .set_hidden(true)
        .unwrap()
        .register("Hidden", &mut svc)
        .unwrap();
    let all = svc.list_all("\\Test").unwrap();
    assert_eq!(all.len(), 1);
    assert_eq!(all[0].name, "Hidden");
}

#[test]
fn list_all_of_missing_folder_is_not_found() {
    let svc = service_with_folders(vec![]);
    assert!(matches!(svc.list_all("\\Absent"), Err(TaskError::NotFound)));
}

#[test]
fn end_to_end_register_and_inspect() {
    let mut svc = service_with_folders(vec![folder("\\Test", vec![])]);
    let builder = Task::new("\\Test")
        .unwrap()
        .author("svc")
        .unwrap()
        .idle_trigger(TaskIdleTrigger::new("t", 30, 10, false))
        .unwrap()
        .exec_action(TaskAction::new("a", "C:\\app.exe", "", "--flag"))
        .unwrap();
    builder.register("MyJob", &mut svc).unwrap();

    let rt: &RegisteredTask = Task::get_task("\\Test", "MyJob", &svc).unwrap();
    assert_eq!(rt.name, "MyJob");
    assert_eq!(rt.definition.author.as_deref(), Some("svc"));
    assert_eq!(rt.definition.triggers.len(), 1);
    assert!(rt.definition.triggers[0].enabled);
    match &rt.definition.triggers[0].kind {
        TriggerKind::Idle(it) => {
            assert_eq!(it.execution_time_limit, "PT30S");
            assert_eq!(it.repetition_interval, "PT10S");
        },
        TriggerKind::Logon(_) => panic!("expected an idle trigger"),
    }
    assert_eq!(rt.definition.actions.len(), 1);
    assert_eq!(rt.definition.actions[0].path, "C:\\app.exe");
    assert_eq!(rt.definition.actions[0].args, "--flag");
}

use vstd::prelude::*;
use crate::error::TaskError;
use crate::task_action::{ActionView, TaskAction};
use crate::task_settings::{SettingsView, TaskSettings};
use crate::task_trigger::{IdleTriggerView, LogonTriggerView, TaskIdleTrigger, TaskLogonTrigger};

verus! {

/// The privilege level a job runs under.
#[derive(Clone, Copy, Debug, PartialEq, Eq, Structural)]
pub enum RunLevel {
    /// Run with the highest privileges available to the principal.
    HIGHEST,
    /// Run with least privilege.
    LUA,
}

/// Abstraction of the identity a job runs under.
pub ghost struct PrincipalView {
    pub run_level: RunLevel,
    pub id: Seq<char>,
    pub user_id: Seq<char>,
}

/// The identity and privilege level under which a job executes.
#[derive(Debug, Clone)]
pub struct Principal {
    pub run_level: RunLevel,
    pub id: String,
    pub user_id: String,
}

impl View for Principal {
    type V = PrincipalView;

    open spec fn view(&self) -> PrincipalView {
        PrincipalView { run_level: self.run_level, id: self.id@, user_id: self.user_id@ }
    }
}

impl DeepView for Principal {
    type V = PrincipalView;

    open spec fn deep_view(&self) -> PrincipalView {
        self.view()
    }
}

/// Which condition starts the job.
pub ghost enum TriggerKindView {
    Idle(IdleTriggerView),
    Logon(LogonTriggerView),
}

/// Abstraction of one entry of a definition's trigger collection.
pub ghost struct TriggerView {
    pub kind: TriggerKindView,
    pub enabled: bool,
}

/// One of the two supported trigger variants.
#[derive(Debug, Clone)]
pub enum TriggerKind {
    Idle(TaskIdleTrigger),
    Logon(TaskLogonTrigger),
}

/// One entry of a definition's trigger collection.
///
/// Every trigger the builder creates is marked enabled.
#[derive(Debug, Clone)]
pub struct Trigger {
    pub kind: TriggerKind,
    pub enabled: bool,
}

impl View for Trigger {
    type V = TriggerView;

    open spec fn view(&self) -> TriggerView {
        TriggerView {
            kind: match self.kind {
                TriggerKind::Idle(t) => TriggerKindView::Idle(t@),
                TriggerKind::Logon(t) => TriggerKindView::Logon(t@),
            },
            enabled: self.enabled,
        }
    }
}

impl DeepView for Trigger {
    type V = TriggerView;

    open spec fn deep_view(&self) -> TriggerView {
        self.view()
    }
}

impl DeepView for TaskAction {
    type V = ActionView;

    open spec fn deep_view(&self) -> ActionView {
        self.view()
    }
}

/// Abstraction of a complete job definition: everything a builder hands
/// to the service at registration.
#[verifier::ext_equal]
pub ghost struct DefinitionView {
    pub author: Option<Seq<char>>,
    pub description: Option<Seq<char>>,
    pub hidden: Option<bool>,
    pub enabled: bool,
    pub triggers: Seq<TriggerView>,
    pub actions: Seq<ActionView>,
    pub settings: Option<SettingsView>,
    pub principal: Option<PrincipalView>,
    pub xml: Option<Seq<char>>,
}

/// A job definition under construction: registration metadata, ordered
/// trigger and action collections, execution policy and run principal.
#[derive(Debug, Clone)]
pub struct TaskDefinition {
    pub author: Option<String>,
    pub description: Option<String>,
    pub hidden: Option<bool>,
    pub enabled: bool,
    pub triggers: Vec<Trigger>,
    pub actions: Vec<TaskAction>,
    pub settings: Option<TaskSettings>,
    pub principal: Option<Principal>,
    pub xml: Option<String>,
}

impl View for TaskDefinition {
    type V = DefinitionView;

    open spec fn view(&self) -> DefinitionView {
        DefinitionView {
            author: self.author.deep_view(),
            description: self.description.deep_view(),
            hidden: self.hidden,
            enabled: self.enabled,
            triggers: self.triggers.deep_view(),
            actions: self.actions.deep_view(),
            settings: match self.settings {
                Some(s) => Some(s@),
                None => None,
            },
            principal: self.principal.deep_view(),
            xml: self.xml.deep_view(),
        }
    }
}

impl DeepView for TaskDefinition {
    type V = DefinitionView;

    open spec fn deep_view(&self) -> DefinitionView {
        self.view()
    }
}

/// A blank definition: no metadata, no triggers, no actions, service
/// defaults everywhere, enabled.
pub open spec fn spec_empty_definition() -> DefinitionView {
    DefinitionView {
        author: None,
        description: None,
        hidden: None,
        enabled: true,
        triggers: Seq::empty(),
        actions: Seq::empty(),
        settings: None,
        principal: None,
        xml: None,
    }
}

/// Abstraction of a builder: the definition accumulated so far and the
/// folder the registration will target.
#[verifier::ext_equal]
pub ghost struct TaskView {
    pub definition: DefinitionView,
    pub folder_path: Seq<char>,
}

/// A fluent builder for one job definition, bound to a target folder.
///
/// Every configuration step consumes the builder and returns the
/// updated one, so a definition is configured by exactly one chain and
/// consumed exactly once by registration.
#[derive(Debug, Clone)]
pub struct Task {
    pub definition: TaskDefinition,
    pub folder_path: String,
}

impl View for Task {
    type V = TaskView;

    open spec fn view(&self) -> TaskView {
        TaskView { definition: self.definition@, folder_path: self.folder_path@ }
    }
}

impl Task {
    /// Starts a blank definition bound to the folder at `path`.
    pub fn new(path: &str) -> (r: Result<Task, TaskError>)
        ensures
            r matches Ok(t) && t@ == (TaskView {
                definition: spec_empty_definition(),
                folder_path: path@,
            }),
    {
        let t = Task {
            definition: TaskDefinition {
                author: None,
                description: None,
                hidden: None,
                enabled: true,
                triggers: Vec::new(),
                actions: Vec::new(),
                settings: None,
                principal: None,
                xml: None,
            },
            folder_path: path.to_owned(),
        };
        proof {
            assert(t@.definition =~= spec_empty_definition());
        }
        Ok(t)
    }

    /// Discards the definition built so far and replaces it with one
    /// the service will parse from `xml`.
    ///
    /// The text is treated as an opaque blob; fluent configuration made
    /// before this call does not carry over into the parsed definition.
    /// An XML-sourced definition also ignores all fluent fields at
    /// registration: the service edge submits the XML text alone, so
    /// configuration chained after this call stays on the builder value
    /// but is not written onto the persisted job.
    pub fn from_xml(self, xml: String) -> (r: Result<Task, TaskError>)
        ensures
            r matches Ok(t) && t@ == (TaskView {
                definition: DefinitionView { xml: Some(xml@), ..spec_empty_definition() },
                folder_path: self@.folder_path,
            }),
    {
        let t = Task {
            definition: TaskDefinition {
                author: None,
                description: None,
                hidden: None,
                enabled: true,
                triggers: Vec::new(),
                actions: Vec::new(),
                settings: None,
                principal: None,
                xml: Some(xml),
            },
            folder_path: self.folder_path,
        };
        proof {
            assert(t@.definition =~= (DefinitionView {
                xml: t@.definition.xml,
                ..spec_empty_definition()
            }));
        }
        Ok(t)
    }

    /// Marks the job hidden (or visible) in the service's listings.
    pub fn set_hidden(self, is_hidden: bool) -> (r: Result<Task, TaskError>)
        ensures
            r matches Ok(t) && t@ == (TaskView {
                definition: DefinitionView { hidden: Some(is_hidden), ..self@.definition },
                folder_path: self@.folder_path,
            }),
    {
        let mut t = self;
        t.definition.hidden = Some(is_hidden);
        proof {
            assert(t@.definition =~= (DefinitionView {
                hidden: Some(is_hidden),
                ..self@.definition
            }));
        }
        Ok(t)
    }

    /// Records the author in the registration metadata.
    pub fn author(self, author: &str) -> (r: Result<Task, TaskError>)
        ensures
            r matches Ok(t) && t@ == (TaskView {
                definition: DefinitionView { author: Some(author@), ..self@.definition },
                folder_path: self@.folder_path,
            }),
    {
        let mut t = self;
        t.definition.author = Some(author.to_owned());
        proof {
            assert(t@.definition =~= (DefinitionView {
                author: Some(author@),
                ..self@.definition
            }));
        }
        Ok(t)
    }

    /// Records the description in the registration metadata.
    pub fn description(self, description: &str) -> (r: Result<Task, TaskError>)
        ensures
            r matches Ok(t) && t@ == (TaskView {
                definition: DefinitionView { description: Some(description@), ..self@.definition },
                folder_path: self@.folder_path,
            }),
    {
        let mut t = self;
        t.definition.description = Some(description.to_owned());
        proof {
            assert(t@.definition =~= (DefinitionView {
                description: Some(description@),
                ..self@.definition
            }));
        }
        Ok(t)
    }

    /// Appends an idle trigger to the trigger collection.
    ///
    /// The new entry is unconditionally marked enabled: the input
    /// carries no such flag, and every created trigger gets it.
    pub fn idle_trigger(self, idle_trigger: TaskIdleTrigger) -> (r: Result<Task, TaskError>)
        ensures
            r matches Ok(t) && t@ == (TaskView {
                definition: DefinitionView {
                    triggers: self@.definition.triggers.push(TriggerView {
                        kind: TriggerKindView::Idle(idle_trigger@),
                        enabled: true,
                    }),
                    ..self@.definition
                },
                folder_path: self@.folder_path,
            }),
    {
        let ghost prev = self@;
        let ghost tv = TriggerView { kind: TriggerKindView::Idle(idle_trigger@), enabled: true };
        let mut t = self;
        t.definition.triggers.push(Trigger { kind: TriggerKind::Idle(idle_trigger), enabled: true });
        proof {
            assert(t.definition.triggers.deep_view() =~= prev.definition.triggers.push(tv));
            assert(t@.definition =~= (DefinitionView {
                triggers: prev.definition.triggers.push(tv),
                ..prev.definition
            }));
        }
        Ok(t)
    }

    /// Appends a logon trigger to the trigger collection.
    ///
    /// The new entry is unconditionally marked enabled, as for idle
    /// triggers.
    pub fn logon_trigger(self, logon_trigger: TaskLogonTrigger) -> (r: Result<Task, TaskError>)
        ensures
            r matches Ok(t) && t@ == (TaskView {
                definition: DefinitionView {
                    triggers: self@.definition.triggers.push(TriggerView {
                        kind: TriggerKindView::Logon(logon_trigger@),
                        enabled: true,
                    }),
                    ..self@.definition
                },
                folder_path: self@.folder_path,
            }),
    {
        let ghost prev = self@;
        let ghost tv = TriggerView { kind: TriggerKindView::Logon(logon_trigger@), enabled: true };
        let mut t = self;
        t.definition.triggers.push(Trigger {
            kind: TriggerKind::Logon(logon_trigger),
            enabled: true,
        });
        proof {
            assert(t.definition.triggers.deep_view() =~= prev.definition.triggers.push(tv));
            assert(t@.definition =~= (DefinitionView {
                triggers: prev.definition.triggers.push(tv),
                ..prev.definition
            }));
        }
        Ok(t)
    }

    /// Sets the run principal: privilege level, principal id, user id.
    pub fn principal(self, run_level: RunLevel, id: &str, user_id: &str) -> (r: Result<
        Task,
        TaskError,
    >)
        ensures
            r matches Ok(t) && t@ == (TaskView {
                definition: DefinitionView {
                    principal: Some(PrincipalView { run_level, id: id@, user_id: user_id@ }),
                    ..self@.definition
                },
                folder_path: self@.folder_path,
            }),
    {
        let mut t = self;
        t.definition.principal = Some(Principal {
            run_level,
            id: id.to_owned(),
            user_id: user_id.to_owned(),
        });
        proof {
            assert(t@.definition =~= (DefinitionView {
                principal: Some(PrincipalView { run_level, id: id@, user_id: user_id@ }),
                ..self@.definition
            }));
        }
        Ok(t)
    }

    /// Replaces the job-wide execution policy with `task_settings`.
    pub fn settings(self, task_settings: TaskSettings) -> (r: Result<Task, TaskError>)
        ensures
            r matches Ok(t) && t@ == (TaskView {
                definition: DefinitionView { settings: Some(task_settings@), ..self@.definition },
                folder_path: self@.folder_path,
            }),
    {
        let ghost sv = task_settings@;
        let mut t = self;
        t.definition.settings = Some(task_settings);
        proof {
            assert(t@.definition =~= (DefinitionView { settings: Some(sv), ..self@.definition }));
        }
        Ok(t)
    }

    /// Appends an exec action to the action collection.
    pub fn exec_action(self, task_action: TaskAction) -> (r: Result<Task, TaskError>)
        ensures
            r matches Ok(t) && t@ == (TaskView {
                definition: DefinitionView {
                    actions: self@.definition.actions.push(task_action@),
                    ..self@.definition
                },
                folder_path: self@.folder_path,
            }),
    {
        let ghost prev = self@;
        let ghost av = task_action@;
        let mut t = self;
        t.definition.actions.push(task_action);
        proof {
            assert(t.definition.actions.deep_view() =~= prev.definition.actions.push(av));
            assert(t@.definition =~= (DefinitionView {
                actions: prev.definition.actions.push(av),
                ..prev.definition
            }));
        }
        Ok(t)
    }
}

} // verus!

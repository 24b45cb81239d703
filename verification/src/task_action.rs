use vstd::prelude::*;

verus! {

/// Abstraction of an exec action: the executable work a job performs.
pub ghost struct ActionView {
    pub id: Seq<char>,
    pub path: Seq<char>,
    pub working_dir: Seq<char>,
    pub args: Seq<char>,
}

/// The one action variant modeled: run an executable with arguments
/// from a working directory.
#[derive(Debug, Clone)]
pub struct TaskAction {
    pub id: String,
    pub path: String,
    pub working_dir: String,
    pub args: String,
}

impl View for TaskAction {
    type V = ActionView;

    open spec fn view(&self) -> ActionView {
        ActionView {
            id: self.id@,
            path: self.path@,
            working_dir: self.working_dir@,
            args: self.args@,
        }
    }
}

impl TaskAction {
    pub fn new(id: &str, path: &str, working_dir: &str, args: &str) -> (r: Self)
        ensures
            r@ == (ActionView { id: id@, path: path@, working_dir: working_dir@, args: args@ }),
    {
        TaskAction {
            id: id.to_owned(),
            path: path.to_owned(),
            working_dir: working_dir.to_owned(),
            args: args.to_owned(),
        }
    }
}

} // verus!

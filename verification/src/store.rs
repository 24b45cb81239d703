use vstd::prelude::*;
use crate::error::TaskError;
use crate::task::{spec_empty_definition, DefinitionView, Task, TaskDefinition};

verus! {

/// Abstraction of one persisted job: its name and its definition.
#[verifier::ext_equal]
pub ghost struct RegisteredTaskView {
    pub name: Seq<char>,
    pub definition: DefinitionView,
}

/// A job already persisted in the service's store, as returned by
/// registration, lookup or enumeration. Read-only in this core.
#[derive(Debug)]
pub struct RegisteredTask {
    pub name: String,
    pub definition: TaskDefinition,
}

impl View for RegisteredTask {
    type V = RegisteredTaskView;

    open spec fn view(&self) -> RegisteredTaskView {
        RegisteredTaskView { name: self.name@, definition: self.definition@ }
    }
}

impl DeepView for RegisteredTask {
    type V = RegisteredTaskView;

    open spec fn deep_view(&self) -> RegisteredTaskView {
        self.view()
    }
}

/// Abstraction of one folder of the namespace: its path, the jobs it
/// holds directly, and its child folders.
#[verifier::ext_equal]
pub ghost struct FolderView {
    pub path: Seq<char>,
    pub tasks: Seq<RegisteredTaskView>,
    pub subfolders: Seq<FolderView>,
}

/// One folder of the service's hierarchical namespace.
///
/// A folder holds zero or more jobs directly and zero or more child
/// folders; the hierarchy is a tree. Paths are full paths from the
/// root, passed through to lookups verbatim.
#[derive(Debug)]
pub struct TaskFolder {
    pub path: String,
    pub tasks: Vec<RegisteredTask>,
    pub subfolders: Vec<TaskFolder>,
}

impl View for TaskFolder {
    type V = FolderView;

    open spec fn view(&self) -> FolderView
        decreases *self,
    {
        FolderView {
            path: self.path@,
            tasks: self.tasks.deep_view(),
            subfolders: Seq::new(
                self.subfolders@.len(),
                |i: int|
                    if 0 <= i < self.subfolders@.len() {
                        self.subfolders@[i].view()
                    } else {
                        FolderView { path: Seq::empty(), tasks: Seq::empty(), subfolders: Seq::empty() }
                    },
            ),
        }
    }
}

/// The persisted state of the scheduling service: its folder tree.
#[derive(Debug)]
pub struct TaskService {
    pub root: TaskFolder,
}

impl View for TaskService {
    type V = FolderView;

    open spec fn view(&self) -> FolderView {
        self.root@
    }
}

/// The first task named `name` in a folder's task list.
pub open spec fn spec_find_task(ts: Seq<RegisteredTaskView>, name: Seq<char>) -> Option<
    RegisteredTaskView,
>
    decreases ts.len(),
{
    if ts.len() == 0 {
        None
    } else if ts[0].name == name {
        Some(ts[0])
    } else {
        spec_find_task(ts.drop_first(), name)
    }
}

/// Create-or-update on a task list: the first task named `name` is
/// replaced, or the new task appended where none exists.
pub open spec fn spec_upsert_task(
    ts: Seq<RegisteredTaskView>,
    name: Seq<char>,
    def: DefinitionView,
) -> Seq<RegisteredTaskView>
    decreases ts.len(),
{
    if ts.len() == 0 {
        seq![RegisteredTaskView { name, definition: def }]
    } else if ts[0].name == name {
        seq![RegisteredTaskView { name, definition: def }] + ts.drop_first()
    } else {
        seq![ts[0]] + spec_upsert_task(ts.drop_first(), name, def)
    }
}

/// Removes the first task named `name` from a task list, if any.
pub open spec fn spec_remove_task(ts: Seq<RegisteredTaskView>, name: Seq<char>) -> Seq<
    RegisteredTaskView,
>
    decreases ts.len(),
{
    if ts.len() == 0 {
        ts
    } else if ts[0].name == name {
        ts.drop_first()
    } else {
        seq![ts[0]] + spec_remove_task(ts.drop_first(), name)
    }
}

/// Whether the subtree rooted at `f` holds a folder with path `p`.
pub open spec fn fv_contains(f: FolderView, p: Seq<char>) -> bool
    decreases f,
{
    f.path == p || fvs_contains(f.subfolders, p)
}

/// Whether any subtree in `s` holds a folder with path `p`.
pub open spec fn fvs_contains(s: Seq<FolderView>, p: Seq<char>) -> bool
    decreases s,
{
    s.len() > 0 && (fv_contains(s[0], p) || fvs_contains(s.drop_first(), p))
}

/// The first folder with path `p` in the subtree rooted at `f`,
/// depth-first and pre-order.
pub open spec fn spec_find_folder(f: FolderView, p: Seq<char>) -> Option<FolderView>
    decreases f,
{
    if f.path == p {
        Some(f)
    } else {
        spec_find_folder_in(f.subfolders, p)
    }
}

/// The first folder with path `p` across the subtrees in `s`.
pub open spec fn spec_find_folder_in(s: Seq<FolderView>, p: Seq<char>) -> Option<FolderView>
    decreases s,
{
    if s.len() == 0 {
        None
    } else {
        match spec_find_folder(s[0], p) {
            Some(g) => Some(g),
            None => spec_find_folder_in(s.drop_first(), p),
        }
    }
}

/// The jobs named by a folder and all of its descendants, the folder's
/// own jobs first, then each child subtree in order (depth-first,
/// pre-order).
pub open spec fn fv_all_tasks(f: FolderView) -> Seq<RegisteredTaskView>
    decreases f,
{
    f.tasks + fvs_all_tasks(f.subfolders)
}

/// The jobs of a run of subtrees, in order.
pub open spec fn fvs_all_tasks(s: Seq<FolderView>) -> Seq<RegisteredTaskView>
    decreases s,
{
    if s.len() == 0 {
        Seq::empty()
    } else {
        fv_all_tasks(s[0]) + fvs_all_tasks(s.drop_first())
    }
}

/// Create-or-update of the task `name` in the first folder with path
/// `p` of the subtree rooted at `f`. Where `p` is absent the tree is
/// returned unchanged.
pub open spec fn spec_register_at(
    f: FolderView,
    p: Seq<char>,
    name: Seq<char>,
    def: DefinitionView,
) -> FolderView
    decreases f,
{
    if f.path == p {
        FolderView { tasks: spec_upsert_task(f.tasks, name, def), ..f }
    } else {
        FolderView { subfolders: spec_register_at_in(f.subfolders, p, name, def), ..f }
    }
}

/// The same update across a run of subtrees: only the first subtree
/// holding `p` is descended into.
pub open spec fn spec_register_at_in(
    s: Seq<FolderView>,
    p: Seq<char>,
    name: Seq<char>,
    def: DefinitionView,
) -> Seq<FolderView>
    decreases s,
{
    if s.len() == 0 {
        s
    } else if fv_contains(s[0], p) {
        seq![spec_register_at(s[0], p, name, def)] + s.drop_first()
    } else {
        seq![s[0]] + spec_register_at_in(s.drop_first(), p, name, def)
    }
}

/// Removal of the task `name` from the first folder with path `p` of
/// the subtree rooted at `f`. Where `p` or the task is absent the tree
/// is returned unchanged.
pub open spec fn spec_delete_at(f: FolderView, p: Seq<char>, name: Seq<char>) -> FolderView
    decreases f,
{
    if f.path == p {
        FolderView { tasks: spec_remove_task(f.tasks, name), ..f }
    } else {
        FolderView { subfolders: spec_delete_at_in(f.subfolders, p, name), ..f }
    }
}

/// The same removal across a run of subtrees.
pub open spec fn spec_delete_at_in(s: Seq<FolderView>, p: Seq<char>, name: Seq<char>) -> Seq<
    FolderView,
>
    decreases s,
{
    if s.len() == 0 {
        s
    } else if fv_contains(s[0], p) {
        seq![spec_delete_at(s[0], p, name)] + s.drop_first()
    } else {
        seq![s[0]] + spec_delete_at_in(s.drop_first(), p, name)
    }
}

/// The definition registered under `name` in the folder at `p`, seen
/// through the same pre-order resolution as the exec lookups.
pub open spec fn spec_lookup(f: FolderView, p: Seq<char>, name: Seq<char>) -> Option<
    RegisteredTaskView,
> {
    match spec_find_folder(f, p) {
        Some(g) => spec_find_task(g.tasks, name),
        None => None,
    }
}

/// Job names are distinct within one folder's task list.
pub open spec fn task_names_unique(ts: Seq<RegisteredTaskView>) -> bool {
    forall|i: int, j: int| 0 <= i < j < ts.len() ==> ts[i].name != ts[j].name
}

/// The full paths of every folder of the subtree, pre-order.
pub open spec fn fv_all_paths(f: FolderView) -> Seq<Seq<char>>
    decreases f,
{
    seq![f.path] + fvs_all_paths(f.subfolders)
}

/// The paths of a run of subtrees, in order.
pub open spec fn fvs_all_paths(s: Seq<FolderView>) -> Seq<Seq<char>>
    decreases s,
{
    if s.len() == 0 {
        Seq::empty()
    } else {
        fv_all_paths(s[0]) + fvs_all_paths(s.drop_first())
    }
}

/// No two folders of the tree share a path.
pub open spec fn paths_unique(ps: Seq<Seq<char>>) -> bool {
    forall|i: int, j: int| 0 <= i < j < ps.len() ==> ps[i] != ps[j]
}

/// Well-formedness of the store, as the service guarantees it: within
/// every folder the job names are distinct, and no two folders of the
/// tree share a path.
pub open spec fn fv_wf(f: FolderView) -> bool
    decreases f,
{
    &&& task_names_unique(f.tasks)
    &&& fvs_wf(f.subfolders)
    &&& paths_unique(fv_all_paths(f))
}

/// Well-formedness of every subtree in a run.
pub open spec fn fvs_wf(s: Seq<FolderView>) -> bool
    decreases s,
{
    s.len() == 0 || (fv_wf(s[0]) && fvs_wf(s.drop_first()))
}

/// A folder is found exactly where the subtree contains its path.
pub proof fn lemma_find_iff_contains(f: FolderView, p: Seq<char>)
    ensures
        spec_find_folder(f, p) is Some <==> fv_contains(f, p),
    decreases f,
{
    if f.path != p {
        lemma_find_in_iff_contains(f.subfolders, p);
    }
}

pub proof fn lemma_find_in_iff_contains(s: Seq<FolderView>, p: Seq<char>)
    ensures
        spec_find_folder_in(s, p) is Some <==> fvs_contains(s, p),
    decreases s,
{
    if s.len() > 0 {
        lemma_find_iff_contains(s[0], p);
        lemma_find_in_iff_contains(s.drop_first(), p);
    }
}

/// Where the first `i` tasks bear other names and task `i` bears
/// `name`, the three task-list operations act at index `i`.
proof fn lemma_task_list_first(
    ts: Seq<RegisteredTaskView>,
    name: Seq<char>,
    def: DefinitionView,
    i: int,
)
    requires
        0 <= i < ts.len(),
        ts[i].name == name,
        forall|j: int| 0 <= j < i ==> ts[j].name != name,
    ensures
        spec_find_task(ts, name) == Some(ts[i]),
        spec_upsert_task(ts, name, def) =~= ts.update(i, RegisteredTaskView { name, definition: def }),
        spec_remove_task(ts, name) =~= ts.remove(i),
    decreases ts.len(),
{
    if i == 0 {
        assert(spec_upsert_task(ts, name, def) =~= ts.update(
            0,
            RegisteredTaskView { name, definition: def },
        ));
        assert(spec_remove_task(ts, name) =~= ts.remove(0));
    } else {
        lemma_task_list_first(ts.drop_first(), name, def, i - 1);
        assert(ts.drop_first()[i - 1] == ts[i]);
        assert(spec_upsert_task(ts, name, def) =~= ts.update(
            i,
            RegisteredTaskView { name, definition: def },
        ));
        assert(spec_remove_task(ts, name) =~= ts.remove(i));
    }
}

/// Where no task bears `name`, find misses, upsert appends, and remove
/// leaves the list as it is.
proof fn lemma_task_list_absent(ts: Seq<RegisteredTaskView>, name: Seq<char>, def: DefinitionView)
    requires
        forall|j: int| 0 <= j < ts.len() ==> ts[j].name != name,
    ensures
        spec_find_task(ts, name) is None,
        spec_upsert_task(ts, name, def) =~= ts.push(RegisteredTaskView { name, definition: def }),
        spec_remove_task(ts, name) =~= ts,
    decreases ts.len(),
{
    if ts.len() == 0 {
        assert(spec_upsert_task(ts, name, def) =~= ts.push(
            RegisteredTaskView { name, definition: def },
        ));
    } else {
        lemma_task_list_absent(ts.drop_first(), name, def);
        assert(spec_upsert_task(ts, name, def) =~= ts.push(
            RegisteredTaskView { name, definition: def },
        ));
        assert(spec_remove_task(ts, name) =~= ts);
    }
}

/// Create-or-update keeps job names distinct, and introduces no name
/// beyond `name` and those already present.
proof fn lemma_upsert_task_unique(ts: Seq<RegisteredTaskView>, name: Seq<char>, def: DefinitionView)
    requires
        task_names_unique(ts),
    ensures
        task_names_unique(spec_upsert_task(ts, name, def)),
        forall|k: int|
            0 <= k < spec_upsert_task(ts, name, def).len() ==> spec_upsert_task(ts, name, def)[k].name
                == name || (exists|l: int|
                0 <= l < ts.len() && ts[l].name == #[trigger] spec_upsert_task(ts, name, def)[k].name),
    decreases ts.len(),
{
    let u = spec_upsert_task(ts, name, def);
    if ts.len() == 0 {
        assert(u[0].name == name);
    } else if ts[0].name == name {
        assert(u[0].name == name);
        assert forall|k: int| 1 <= k < u.len() implies exists|l: int|
            0 <= l < ts.len() && ts[l].name == #[trigger] u[k].name by {
            assert(ts[k].name == u[k].name);
        }
    } else {
        lemma_upsert_task_unique(ts.drop_first(), name, def);
        assert(u[0] == ts[0]);
        assert(u.drop_first() =~= spec_upsert_task(ts.drop_first(), name, def));
        let d = ts.drop_first();
        let ud = spec_upsert_task(d, name, def);
        assert forall|k: int| 0 <= k < u.len() implies u[k].name == name || (exists|l: int|
            0 <= l < ts.len() && ts[l].name == #[trigger] u[k].name) by {
            if k == 0 {
                assert(ts[0].name == u[0].name);
            } else {
                assert(u[k] == ud[k - 1]);
                if ud[k - 1].name != name {
                    let l = choose|l: int| 0 <= l < d.len() && d[l].name == ud[k - 1].name;
                    assert(ts[l + 1].name == u[k].name);
                }
            }
        }
        assert forall|i: int, j: int| 0 <= i < j < u.len() implies u[i].name != u[j].name by {
            if i == 0 {
                // the head keeps its name; the tail holds `name` or old tail names
                assert(u[j] == ud[j - 1]);
                if ud[j - 1].name != name {
                    let l = choose|l: int| 0 <= l < d.len() && d[l].name == ud[j - 1].name;
                    assert(ts[l + 1].name == u[j].name);
                }
            } else {
                assert(u[i] == ud[i - 1]);
                assert(u[j] == ud[j - 1]);
            }
        }
    }
}

/// On a list with distinct names, removal takes the one job of that
/// name out for good: no job named `name` survives, distinctness is
/// kept, and no new name appears.
proof fn lemma_remove_task_gone(ts: Seq<RegisteredTaskView>, name: Seq<char>)
    requires
        task_names_unique(ts),
    ensures
        task_names_unique(spec_remove_task(ts, name)),
        spec_find_task(spec_remove_task(ts, name), name) is None,
        forall|k: int|
            0 <= k < spec_remove_task(ts, name).len() ==> exists|l: int|
                0 <= l < ts.len() && ts[l].name == #[trigger] spec_remove_task(ts, name)[k].name,
    decreases ts.len(),
{
    let r = spec_remove_task(ts, name);
    if ts.len() == 0 {
    } else if ts[0].name == name {
        assert forall|j: int| 0 <= j < r.len() implies r[j].name != name by {
            assert(r[j] == ts[j + 1]);
        }
        lemma_task_list_absent(r, name, spec_empty_definition());
        assert forall|k: int| 0 <= k < r.len() implies exists|l: int|
            0 <= l < ts.len() && ts[l].name == #[trigger] r[k].name by {
            assert(ts[k + 1].name == r[k].name);
        }
    } else {
        lemma_remove_task_gone(ts.drop_first(), name);
        assert(r[0] == ts[0]);
        assert(r.drop_first() =~= spec_remove_task(ts.drop_first(), name));
        let d = ts.drop_first();
        let rd = spec_remove_task(d, name);
        assert forall|k: int| 0 <= k < r.len() implies exists|l: int|
            0 <= l < ts.len() && ts[l].name == #[trigger] r[k].name by {
            if k == 0 {
                assert(ts[0].name == r[0].name);
            } else {
                assert(r[k] == rd[k - 1]);
                let l = choose|l: int| 0 <= l < d.len() && d[l].name == rd[k - 1].name;
                assert(ts[l + 1].name == r[k].name);
            }
        }
        assert forall|i: int, j: int| 0 <= i < j < r.len() implies r[i].name != r[j].name by {
            if i == 0 {
                assert(r[j] == rd[j - 1]);
                let l = choose|l: int| 0 <= l < d.len() && d[l].name == rd[j - 1].name;
                assert(ts[l + 1].name == r[j].name);
            } else {
                assert(r[i] == rd[i - 1]);
                assert(r[j] == rd[j - 1]);
            }
        }
    }
}

/// Skipping subtrees where the folder is not found does not change what
/// is found across the run.
proof fn lemma_find_in_prefix_none(s: Seq<FolderView>, p: Seq<char>, i: int)
    requires
        0 <= i <= s.len(),
        forall|j: int| 0 <= j < i ==> spec_find_folder(#[trigger] s[j], p) is None,
    ensures
        spec_find_folder_in(s, p) == spec_find_folder_in(s.subrange(i, s.len() as int), p),
    decreases i,
{
    if i == 0 {
        assert(s.subrange(0, s.len() as int) =~= s);
    } else {
        lemma_find_in_prefix_none(s.drop_first(), p, i - 1);
        assert(s.drop_first().subrange(i - 1, s.drop_first().len() as int) =~= s.subrange(
            i,
            s.len() as int,
        ));
    }
}

/// The abstractions of a run of folders.
pub open spec fn views_of(v: Seq<TaskFolder>) -> Seq<FolderView> {
    Seq::new(v.len(), |i: int| v[i]@)
}

proof fn lemma_fvs_contains_snoc(s: Seq<FolderView>, x: FolderView, p: Seq<char>)
    ensures
        fvs_contains(s.push(x), p) == (fvs_contains(s, p) || fv_contains(x, p)),
    decreases s,
{
    if s.len() == 0 {
        assert(s.push(x)[0] == x);
        assert(s.push(x).drop_first() =~= Seq::<FolderView>::empty());
        assert(!fvs_contains(Seq::<FolderView>::empty(), p));
        assert(!fvs_contains(s, p));
    } else {
        lemma_fvs_contains_snoc(s.drop_first(), x, p);
        assert(s.push(x)[0] == s[0]);
        assert(s.push(x).drop_first() =~= s.drop_first().push(x));
    }
}

/// Where no subtree holds `p`, the update leaves the run as it is.
proof fn lemma_register_at_in_absent(
    s: Seq<FolderView>,
    p: Seq<char>,
    name: Seq<char>,
    def: DefinitionView,
)
    requires
        !fvs_contains(s, p),
    ensures
        spec_register_at_in(s, p, name, def) =~= s,
    decreases s,
{
    if s.len() > 0 {
        lemma_register_at_in_absent(s.drop_first(), p, name, def);
        assert(spec_register_at_in(s, p, name, def) =~= s);
    }
}

/// Where the subtree does not hold `p`, the update leaves it as it is.
proof fn lemma_register_at_absent(f: FolderView, p: Seq<char>, name: Seq<char>, def: DefinitionView)
    requires
        !fv_contains(f, p),
    ensures
        spec_register_at(f, p, name, def) =~= f,
    decreases f,
{
    lemma_register_at_in_absent(f.subfolders, p, name, def);
}

/// Appending a subtree to a run commutes with the update in the
/// expected way: the new subtree is only touched where no earlier
/// subtree holds `p`.
proof fn lemma_register_at_in_snoc(
    s: Seq<FolderView>,
    x: FolderView,
    p: Seq<char>,
    name: Seq<char>,
    def: DefinitionView,
)
    ensures
        spec_register_at_in(s.push(x), p, name, def) =~= (if fvs_contains(s, p) {
            spec_register_at_in(s, p, name, def).push(x)
        } else if fv_contains(x, p) {
            s.push(spec_register_at(x, p, name, def))
        } else {
            s.push(x)
        }),
    decreases s,
{
    if s.len() == 0 {
        assert(s.push(x)[0] == x);
        assert(s.push(x).drop_first() =~= Seq::<FolderView>::empty());
        assert(!fvs_contains(Seq::<FolderView>::empty(), p));
        assert(!fvs_contains(s, p));
        if fv_contains(x, p) {
            assert(spec_register_at_in(s.push(x), p, name, def) =~= s.push(
                spec_register_at(x, p, name, def),
            ));
        } else {
            lemma_register_at_in_absent(s.push(x), p, name, def);
        }
    } else {
        lemma_register_at_in_snoc(s.drop_first(), x, p, name, def);
        assert(s.push(x)[0] == s[0]);
        assert(s.push(x).drop_first() =~= s.drop_first().push(x));
        if fv_contains(s[0], p) {
            assert(spec_register_at_in(s.push(x), p, name, def) =~= (seq![
                spec_register_at(s[0], p, name, def),
            ] + s.drop_first()).push(x));
        }
    }
}

/// The upserted task is what a later find returns.
proof fn lemma_find_task_after_upsert(
    ts: Seq<RegisteredTaskView>,
    name: Seq<char>,
    def: DefinitionView,
)
    ensures
        spec_find_task(spec_upsert_task(ts, name, def), name) == Some(
            RegisteredTaskView { name, definition: def },
        ),
    decreases ts.len(),
{
    let u = spec_upsert_task(ts, name, def);
    if ts.len() == 0 {
        assert(u[0] == (RegisteredTaskView { name, definition: def }));
    } else if ts[0].name == name {
        assert(u[0] == (RegisteredTaskView { name, definition: def }));
    } else {
        lemma_find_task_after_upsert(ts.drop_first(), name, def);
        assert(u[0] == ts[0]);
        assert(u.drop_first() =~= spec_upsert_task(ts.drop_first(), name, def));
    }
}

/// Registration changes no folder's presence: the tree keeps its paths.
pub proof fn lemma_register_keeps_folders(
    f: FolderView,
    p: Seq<char>,
    name: Seq<char>,
    def: DefinitionView,
    q: Seq<char>,
)
    ensures
        fv_contains(spec_register_at(f, p, name, def), q) == fv_contains(f, q),
    decreases f,
{
    if f.path != p {
        lemma_register_in_keeps_folders(f.subfolders, p, name, def, q);
    }
}

proof fn lemma_register_in_keeps_folders(
    s: Seq<FolderView>,
    p: Seq<char>,
    name: Seq<char>,
    def: DefinitionView,
    q: Seq<char>,
)
    ensures
        fvs_contains(spec_register_at_in(s, p, name, def), q) == fvs_contains(s, q),
    decreases s,
{
    if s.len() > 0 {
        let s2 = spec_register_at_in(s, p, name, def);
        if fv_contains(s[0], p) {
            lemma_register_keeps_folders(s[0], p, name, def, q);
            assert(s2[0] == spec_register_at(s[0], p, name, def));
            assert(s2.drop_first() =~= s.drop_first());
        } else {
            lemma_register_in_keeps_folders(s.drop_first(), p, name, def, q);
            assert(s2[0] == s[0]);
            assert(s2.drop_first() =~= spec_register_at_in(s.drop_first(), p, name, def));
        }
    }
}

/// After a registration aimed at a present folder, looking the job up
/// by the same path and name returns exactly the registered definition.
pub proof fn lemma_register_then_lookup(
    f: FolderView,
    p: Seq<char>,
    name: Seq<char>,
    def: DefinitionView,
)
    requires
        fv_contains(f, p),
    ensures
        spec_lookup(spec_register_at(f, p, name, def), p, name) == Some(
            RegisteredTaskView { name, definition: def },
        ),
    decreases f,
{
    if f.path == p {
        lemma_find_task_after_upsert(f.tasks, name, def);
    } else {
        lemma_register_in_then_find(f.subfolders, p, name, def);
    }
}

proof fn lemma_register_in_then_find(
    s: Seq<FolderView>,
    p: Seq<char>,
    name: Seq<char>,
    def: DefinitionView,
)
    requires
        fvs_contains(s, p),
    ensures
        match spec_find_folder_in(spec_register_at_in(s, p, name, def), p) {
            Some(g) => spec_find_task(g.tasks, name) == Some(
                RegisteredTaskView { name, definition: def },
            ),
            None => false,
        },
    decreases s,
{
    let s2 = spec_register_at_in(s, p, name, def);
    if fv_contains(s[0], p) {
        lemma_register_then_lookup(s[0], p, name, def);
        assert(s2[0] == spec_register_at(s[0], p, name, def));
    } else {
        lemma_register_in_then_find(s.drop_first(), p, name, def);
        lemma_find_iff_contains(s[0], p);
        assert(s2[0] == s[0]);
        assert(s2.drop_first() =~= spec_register_at_in(s.drop_first(), p, name, def));
    }
}

fn str_eq(a: &str, b: &str) -> (r: bool)
    ensures
        r == (a@ == b@),
{
    let x = a.to_owned();
    let y = b.to_owned();
    x == y
}

/// The index of the first task named `name` in a task list, if any.
fn find_task_in(ts: &Vec<RegisteredTask>, name: &str) -> (r: Option<usize>)
    ensures
        match r {
            Some(i) => i < ts@.len() && ts.deep_view()[i as int].name == name@ && (forall|j: int|
                0 <= j < i ==> ts.deep_view()[j].name != name@),
            None => forall|j: int| 0 <= j < ts@.len() ==> ts.deep_view()[j].name != name@,
        },
{
    let mut i: usize = 0;
    while i < ts.len()
        invariant
            i <= ts@.len(),
            forall|j: int| 0 <= j < i ==> ts.deep_view()[j].name != name@,
        decreases ts@.len() - i,
    {
        if str_eq(ts[i].name.as_str(), name) {
            return Some(i);
        }
        i = i + 1;
    }
    None
}

/// The first folder with path `p` in the subtree rooted at `f`,
/// depth-first and pre-order, as [`spec_find_folder`] names it.
fn find_folder<'a>(f: &'a TaskFolder, p: &str) -> (r: Option<&'a TaskFolder>)
    ensures
        match r {
            Some(g) => spec_find_folder(f@, p@) == Some(g@),
            None => spec_find_folder(f@, p@) is None,
        },
    decreases *f,
{
    if str_eq(f.path.as_str(), p) {
        return Some(f);
    }
    let n = f.subfolders.len();
    let mut i: usize = 0;
    while i < n
        invariant
            i <= n,
            n == f.subfolders@.len(),
            f@.path != p@,
            forall|j: int| 0 <= j < i ==> spec_find_folder(#[trigger] f@.subfolders[j], p@) is None,
        decreases n - i,
    {
        proof {
            assert(decreases_to!(f.subfolders => f.subfolders@));
            assert(decreases_to!(f.subfolders@ => f.subfolders@[i as int]));
        }
        let child = &f.subfolders[i];
        match find_folder(child, p) {
            Some(g) => {
                proof {
                    lemma_find_in_prefix_none(f@.subfolders, p@, i as int);
                    let rest = f@.subfolders.subrange(i as int, f@.subfolders.len() as int);
                    assert(rest[0] == f@.subfolders[i as int]);
                    assert(rest.drop_first() =~= f@.subfolders.subrange(
                        i + 1,
                        f@.subfolders.len() as int,
                    ));
                }
                return Some(g);
            },
            None => {},
        }
        i = i + 1;
    }
    proof {
        lemma_find_in_prefix_none(f@.subfolders, p@, f@.subfolders.len() as int);
        assert(f@.subfolders.subrange(f@.subfolders.len() as int, f@.subfolders.len() as int)
            =~= Seq::<FolderView>::empty());
    }
    None
}

/// Create-or-update of the job `name` in the first folder with path
/// `p`, by structural recursion over the tree. The definition is
/// returned unconsumed where no folder has path `p`.
fn register_at(
    folder: TaskFolder,
    p: &str,
    name: &str,
    def: TaskDefinition,
    Ghost(fv): Ghost<FolderView>,
) -> (r: (TaskFolder, Option<TaskDefinition>))
    requires
        folder@ == fv,
    ensures
        (r.1 is None) == fv_contains(folder@, p@),
        r.0@ == spec_register_at(folder@, p@, name@, def@),
        r.1 matches Some(d) ==> d == def,
    decreases fv,
{
    let ghost f0 = folder;
    if str_eq(folder.path.as_str(), p) {
        let mut folder = folder;
        let ghost dv = def@;
        match find_task_in(&folder.tasks, name) {
            Some(i) => {
                proof {
                    lemma_task_list_first(f0@.tasks, name@, dv, i as int);
                }
                folder.tasks.remove(i);
                folder.tasks.insert(i, RegisteredTask { name: name.to_owned(), definition: def });
                proof {
                    assert(folder.tasks.deep_view() =~= f0@.tasks.update(
                        i as int,
                        RegisteredTaskView { name: name@, definition: dv },
                    ));
                    assert(folder@ =~= spec_register_at(f0@, p@, name@, dv));
                }
            },
            None => {
                proof {
                    lemma_task_list_absent(f0@.tasks, name@, dv);
                }
                folder.tasks.push(RegisteredTask { name: name.to_owned(), definition: def });
                proof {
                    assert(folder.tasks.deep_view() =~= f0@.tasks.push(
                        RegisteredTaskView { name: name@, definition: dv },
                    ));
                    assert(folder@ =~= spec_register_at(f0@, p@, name@, dv));
                }
            },
        }
        (folder, None)
    } else {
        let TaskFolder { path, tasks, subfolders } = folder;
        let mut subfolders = subfolders;
        let n = subfolders.len();
        let mut out: Vec<TaskFolder> = Vec::new();
        let mut carry: Option<TaskDefinition> = Some(def);
        proof {
            assert(f0@.subfolders.subrange(0, 0) =~= Seq::<FolderView>::empty());
            assert(!fvs_contains(Seq::<FolderView>::empty(), p@));
            assert(spec_register_at_in(Seq::<FolderView>::empty(), p@, name@, def@)
                =~= Seq::<FolderView>::empty());
            assert(views_of(out@) =~= Seq::<FolderView>::empty());
            assert(subfolders@ =~= f0.subfolders@.subrange(0, n as int));
        }
        while subfolders.len() > 0
            invariant
                fv == f0@,
                f0@.path != p@,
                n == f0.subfolders@.len(),
                out@.len() + subfolders@.len() == n,
                subfolders@ =~= f0.subfolders@.subrange(out@.len() as int, n as int),
                (carry is None) == fvs_contains(
                    f0@.subfolders.subrange(0, out@.len() as int),
                    p@,
                ),
                views_of(out@) =~= spec_register_at_in(
                    f0@.subfolders.subrange(0, out@.len() as int),
                    p@,
                    name@,
                    def@,
                ),
                carry matches Some(d) ==> d == def,
            decreases subfolders@.len(),
        {
            let ghost k = out@.len() as int;
            let ghost pre = f0@.subfolders.subrange(0, k);
            let ghost out_old = out@;
            let c = subfolders.remove(0);
            proof {
                assert(c == f0.subfolders@[k]);
                assert(c@ == f0@.subfolders[k]);
                assert(f0@.subfolders.subrange(0, k + 1) =~= pre.push(c@));
                lemma_fvs_contains_snoc(pre, c@, p@);
                lemma_register_at_in_snoc(pre, c@, p@, name@, def@);
            }
            match carry {
                Some(d) => {
                    proof {
                        assert(fv == f0@);
                        assert(fv.subfolders.len() == n);
                        assert(0 <= k < fv.subfolders.len());
                        assert(fv.subfolders[k] == c@);
                        assert(decreases_to!(fv => fv.subfolders));
                        assert(decreases_to!(fv.subfolders => fv.subfolders[k]));
                        lemma_register_at_in_absent(pre, p@, name@, def@);
                    }
                    let (c2, back) = register_at(c, p, name, d, Ghost(c@));
                    out.push(c2);
                    carry = back;
                    proof {
                        assert(out@.drop_last() =~= out_old);
                        assert(views_of(out@) =~= views_of(out_old).push(c2@));
                        assert(c2@ == spec_register_at(c@, p@, name@, def@));
                        if !fv_contains(c@, p@) {
                            lemma_register_at_absent(c@, p@, name@, def@);
                            assert(c2@ =~= c@);
                        }
                        assert(views_of(out@) =~= spec_register_at_in(
                            pre.push(c@),
                            p@,
                            name@,
                            def@,
                        ));
                    }
                },
                None => {
                    out.push(c);
                    carry = None;
                    proof {
                        assert(out@.drop_last() =~= out_old);
                        assert(views_of(out@) =~= views_of(out_old).push(c@));
                        assert(views_of(out@) =~= spec_register_at_in(
                            pre.push(c@),
                            p@,
                            name@,
                            def@,
                        ));
                    }
                },
            }
            proof {
                assert(f0@.subfolders.subrange(0, out@.len() as int) =~= pre.push(c@));
                assert(subfolders@ =~= f0.subfolders@.subrange(out@.len() as int, n as int));
            }
        }
        proof {
            assert(f0@.subfolders.subrange(0, n as int) =~= f0@.subfolders);
        }
        let folder2 = TaskFolder { path, tasks, subfolders: out };
        proof {
            assert(folder2@.subfolders =~= views_of(out@));
            assert(folder2@ =~= spec_register_at(f0@, p@, name@, def@));
            if carry is Some {
                assert(!fv_contains(f0@, p@));
            } else {
                assert(fv_contains(f0@, p@));
            }
        }
        (folder2, carry)
    }
}

/// Where no subtree holds `p`, the removal leaves the run as it is.
proof fn lemma_delete_at_in_absent(s: Seq<FolderView>, p: Seq<char>, name: Seq<char>)
    requires
        !fvs_contains(s, p),
    ensures
        spec_delete_at_in(s, p, name) =~= s,
    decreases s,
{
    if s.len() > 0 {
        lemma_delete_at_in_absent(s.drop_first(), p, name);
        assert(spec_delete_at_in(s, p, name) =~= s);
    }
}

/// Where the subtree does not hold `p`, the removal leaves it as it is.
proof fn lemma_delete_at_absent(f: FolderView, p: Seq<char>, name: Seq<char>)
    requires
        !fv_contains(f, p),
    ensures
        spec_delete_at(f, p, name) =~= f,
    decreases f,
{
    lemma_delete_at_in_absent(f.subfolders, p, name);
}

/// Appending a subtree to a run commutes with the removal: the new
/// subtree is only touched where no earlier subtree holds `p`.
proof fn lemma_delete_at_in_snoc(s: Seq<FolderView>, x: FolderView, p: Seq<char>, name: Seq<char>)
    ensures
        spec_delete_at_in(s.push(x), p, name) =~= (if fvs_contains(s, p) {
            spec_delete_at_in(s, p, name).push(x)
        } else if fv_contains(x, p) {
            s.push(spec_delete_at(x, p, name))
        } else {
            s.push(x)
        }),
    decreases s,
{
    if s.len() == 0 {
        assert(s.push(x)[0] == x);
        assert(s.push(x).drop_first() =~= Seq::<FolderView>::empty());
        assert(!fvs_contains(Seq::<FolderView>::empty(), p));
        assert(!fvs_contains(s, p));
        if fv_contains(x, p) {
            assert(spec_delete_at_in(s.push(x), p, name) =~= s.push(spec_delete_at(x, p, name)));
        } else {
            lemma_delete_at_in_absent(s.push(x), p, name);
        }
    } else {
        lemma_delete_at_in_snoc(s.drop_first(), x, p, name);
        assert(s.push(x)[0] == s[0]);
        assert(s.push(x).drop_first() =~= s.drop_first().push(x));
        if fv_contains(s[0], p) {
            assert(spec_delete_at_in(s.push(x), p, name) =~= (seq![spec_delete_at(s[0], p, name)]
                + s.drop_first()).push(x));
        }
    }
}

/// Removal of the job `name` from the first folder with path `p`, by
/// structural recursion over the tree.
fn delete_at(folder: TaskFolder, p: &str, name: &str, Ghost(fv): Ghost<FolderView>) -> (r: (
    TaskFolder,
    bool,
))
    requires
        folder@ == fv,
    ensures
        r.1 == fv_contains(folder@, p@),
        r.0@ == spec_delete_at(folder@, p@, name@),
    decreases fv,
{
    let ghost f0 = folder;
    if str_eq(folder.path.as_str(), p) {
        let mut folder = folder;
        match find_task_in(&folder.tasks, name) {
            Some(i) => {
                proof {
                    lemma_task_list_first(f0@.tasks, name@, spec_empty_definition(), i as int);
                }
                folder.tasks.remove(i);
                proof {
                    assert(folder.tasks.deep_view() =~= f0@.tasks.remove(i as int));
                    assert(folder@ =~= spec_delete_at(f0@, p@, name@));
                }
            },
            None => {
                proof {
                    lemma_task_list_absent(f0@.tasks, name@, spec_empty_definition());
                    assert(folder.tasks.deep_view() =~= spec_remove_task(f0@.tasks, name@));
                    assert(folder@ =~= spec_delete_at(f0@, p@, name@));
                }
            },
        }
        (folder, true)
    } else {
        let TaskFolder { path, tasks, subfolders } = folder;
        let mut subfolders = subfolders;
        let n = subfolders.len();
        let mut out: Vec<TaskFolder> = Vec::new();
        let mut found = false;
        proof {
            assert(f0@.subfolders.subrange(0, 0) =~= Seq::<FolderView>::empty());
            assert(!fvs_contains(Seq::<FolderView>::empty(), p@));
            assert(spec_delete_at_in(Seq::<FolderView>::empty(), p@, name@)
                =~= Seq::<FolderView>::empty());
            assert(views_of(out@) =~= Seq::<FolderView>::empty());
            assert(subfolders@ =~= f0.subfolders@.subrange(0, n as int));
        }
        while subfolders.len() > 0
            invariant
                fv == f0@,
                f0@.path != p@,
                n == f0.subfolders@.len(),
                out@.len() + subfolders@.len() == n,
                subfolders@ =~= f0.subfolders@.subrange(out@.len() as int, n as int),
                found == fvs_contains(f0@.subfolders.subrange(0, out@.len() as int), p@),
                views_of(out@) =~= spec_delete_at_in(
                    f0@.subfolders.subrange(0, out@.len() as int),
                    p@,
                    name@,
                ),
            decreases subfolders@.len(),
        {
            let ghost k = out@.len() as int;
            let ghost pre = f0@.subfolders.subrange(0, k);
            let ghost out_old = out@;
            let c = subfolders.remove(0);
            proof {
                assert(c == f0.subfolders@[k]);
                assert(c@ == f0@.subfolders[k]);
                assert(f0@.subfolders.subrange(0, k + 1) =~= pre.push(c@));
                lemma_fvs_contains_snoc(pre, c@, p@);
                lemma_delete_at_in_snoc(pre, c@, p@, name@);
            }
            if !found {
                proof {
                    assert(fv.subfolders[k] == c@);
                    assert(decreases_to!(fv => fv.subfolders));
                    assert(decreases_to!(fv.subfolders => fv.subfolders[k]));
                    lemma_delete_at_in_absent(pre, p@, name@);
                }
                let (c2, fd) = delete_at(c, p, name, Ghost(c@));
                found = fd;
                out.push(c2);
                proof {
                    assert(out@.drop_last() =~= out_old);
                    assert(views_of(out@) =~= views_of(out_old).push(c2@));
                    if !fv_contains(c@, p@) {
                        lemma_delete_at_absent(c@, p@, name@);
                        assert(c2@ =~= c@);
                    }
                    assert(views_of(out@) =~= spec_delete_at_in(pre.push(c@), p@, name@));
                }
            } else {
                out.push(c);
                proof {
                    assert(out@.drop_last() =~= out_old);
                    assert(views_of(out@) =~= views_of(out_old).push(c@));
                    assert(views_of(out@) =~= spec_delete_at_in(pre.push(c@), p@, name@));
                }
            }
            proof {
                assert(f0@.subfolders.subrange(0, out@.len() as int) =~= pre.push(c@));
                assert(subfolders@ =~= f0.subfolders@.subrange(out@.len() as int, n as int));
            }
        }
        proof {
            assert(f0@.subfolders.subrange(0, n as int) =~= f0@.subfolders);
        }
        let folder2 = TaskFolder { path, tasks, subfolders: out };
        proof {
            assert(folder2@.subfolders =~= views_of(out@));
            assert(folder2@ =~= spec_delete_at(f0@, p@, name@));
        }
        (folder2, found)
    }
}

/// The jobs of a subtree, in order: each lemma step peels one appended
/// subtree off the run.
proof fn lemma_fvs_all_tasks_snoc(s: Seq<FolderView>, x: FolderView)
    ensures
        fvs_all_tasks(s.push(x)) =~= fvs_all_tasks(s) + fv_all_tasks(x),
    decreases s,
{
    if s.len() == 0 {
        assert(s.push(x)[0] == x);
        assert(s.push(x).drop_first() =~= Seq::<FolderView>::empty());
        assert(fvs_all_tasks(Seq::<FolderView>::empty()) =~= Seq::<RegisteredTaskView>::empty());
    } else {
        lemma_fvs_all_tasks_snoc(s.drop_first(), x);
        assert(s.push(x)[0] == s[0]);
        assert(s.push(x).drop_first() =~= s.drop_first().push(x));
    }
}

/// Appends every job of the subtree rooted at `f` to `out`, the
/// folder's own jobs first, then each child subtree in order.
fn collect_tasks<'a>(f: &'a TaskFolder, out: &mut Vec<&'a RegisteredTask>)
    ensures
        final(out).deep_view() == old(out).deep_view() + fv_all_tasks(f@),
    decreases *f,
{
    let ghost base = out.deep_view();
    let mut i: usize = 0;
    while i < f.tasks.len()
        invariant
            i <= f.tasks@.len(),
            out.deep_view() =~= base + f@.tasks.subrange(0, i as int),
        decreases f.tasks@.len() - i,
    {
        let ghost out_old = out.deep_view();
        out.push(&f.tasks[i]);
        proof {
            assert(out.deep_view() =~= out_old.push(f@.tasks[i as int]));
            assert(base + f@.tasks.subrange(0, i + 1) =~= (base + f@.tasks.subrange(
                0,
                i as int,
            )).push(f@.tasks[i as int]));
        }
        i = i + 1;
    }
    proof {
        assert(f@.tasks.subrange(0, f@.tasks.len() as int) =~= f@.tasks);
        assert(fvs_all_tasks(f@.subfolders.subrange(0, 0)) =~= Seq::<RegisteredTaskView>::empty());
        assert(f@.subfolders.subrange(0, 0) =~= Seq::<FolderView>::empty());
    }
    let mut j: usize = 0;
    while j < f.subfolders.len()
        invariant
            j <= f.subfolders@.len(),
            out.deep_view() =~= base + f@.tasks + fvs_all_tasks(f@.subfolders.subrange(0, j as int)),
        decreases f.subfolders@.len() - j,
    {
        let ghost pre = f@.subfolders.subrange(0, j as int);
        let ghost out_old = out.deep_view();
        proof {
            assert(f@.subfolders[j as int] == f.subfolders@[j as int]@);
            assert(decreases_to!(f.subfolders => f.subfolders@));
            assert(decreases_to!(f.subfolders@ => f.subfolders@[j as int]));
        }
        collect_tasks(&f.subfolders[j], out);
        proof {
            lemma_fvs_all_tasks_snoc(pre, f@.subfolders[j as int]);
            assert(f@.subfolders.subrange(0, j + 1) =~= pre.push(f@.subfolders[j as int]));
            assert(out.deep_view() =~= base + f@.tasks + fvs_all_tasks(
                f@.subfolders.subrange(0, j + 1),
            ));
        }
        j = j + 1;
    }
    proof {
        assert(f@.subfolders.subrange(0, f@.subfolders.len() as int) =~= f@.subfolders);
        assert(out.deep_view() =~= base + fv_all_tasks(f@));
    }
}

/// Registering twice under one name leaves the later definition: the
/// second registration replaces the first (create-or-update), and a
/// lookup by the same path and name returns it.
pub proof fn lemma_register_replaces(
    f: FolderView,
    p: Seq<char>,
    name: Seq<char>,
    d1: DefinitionView,
    d2: DefinitionView,
)
    requires
        fv_contains(f, p),
    ensures
        spec_lookup(spec_register_at(spec_register_at(f, p, name, d1), p, name, d2), p, name)
            == Some(RegisteredTaskView { name, definition: d2 }),
{
    lemma_register_keeps_folders(f, p, name, d1, p);
    lemma_register_then_lookup(spec_register_at(f, p, name, d1), p, name, d2);
}

/// Registration keeps the store well-formed: job names stay distinct
/// within every folder, and no folder path changes.
pub proof fn lemma_register_at_wf(
    f: FolderView,
    p: Seq<char>,
    name: Seq<char>,
    def: DefinitionView,
)
    requires
        fv_wf(f),
    ensures
        fv_wf(spec_register_at(f, p, name, def)),
        fv_all_paths(spec_register_at(f, p, name, def)) =~= fv_all_paths(f),
    decreases f,
{
    let g = spec_register_at(f, p, name, def);
    if f.path == p {
        lemma_upsert_task_unique(f.tasks, name, def);
        assert(fv_all_paths(g) =~= fv_all_paths(f));
    } else {
        lemma_register_at_in_wf(f.subfolders, p, name, def);
        assert(fv_all_paths(g) =~= fv_all_paths(f));
    }
}

proof fn lemma_register_at_in_wf(
    s: Seq<FolderView>,
    p: Seq<char>,
    name: Seq<char>,
    def: DefinitionView,
)
    requires
        fvs_wf(s),
    ensures
        fvs_wf(spec_register_at_in(s, p, name, def)),
        fvs_all_paths(spec_register_at_in(s, p, name, def)) =~= fvs_all_paths(s),
    decreases s,
{
    if s.len() > 0 {
        let s2 = spec_register_at_in(s, p, name, def);
        if fv_contains(s[0], p) {
            lemma_register_at_wf(s[0], p, name, def);
            assert(s2[0] == spec_register_at(s[0], p, name, def));
            assert(s2.drop_first() =~= s.drop_first());
            assert(fvs_wf(s2));
            assert(fvs_all_paths(s2) =~= fvs_all_paths(s));
        } else {
            lemma_register_at_in_wf(s.drop_first(), p, name, def);
            assert(s2[0] == s[0]);
            assert(s2.drop_first() =~= spec_register_at_in(s.drop_first(), p, name, def));
            assert(fvs_wf(s2));
            assert(fvs_all_paths(s2) =~= fvs_all_paths(s));
        }
    }
}

/// Deletion keeps the store well-formed, by the same argument.
pub proof fn lemma_delete_at_wf(f: FolderView, p: Seq<char>, name: Seq<char>)
    requires
        fv_wf(f),
    ensures
        fv_wf(spec_delete_at(f, p, name)),
        fv_all_paths(spec_delete_at(f, p, name)) =~= fv_all_paths(f),
    decreases f,
{
    let g = spec_delete_at(f, p, name);
    if f.path == p {
        lemma_remove_task_gone(f.tasks, name);
        assert(fv_all_paths(g) =~= fv_all_paths(f));
    } else {
        lemma_delete_at_in_wf(f.subfolders, p, name);
        assert(fv_all_paths(g) =~= fv_all_paths(f));
    }
}

proof fn lemma_delete_at_in_wf(s: Seq<FolderView>, p: Seq<char>, name: Seq<char>)
    requires
        fvs_wf(s),
    ensures
        fvs_wf(spec_delete_at_in(s, p, name)),
        fvs_all_paths(spec_delete_at_in(s, p, name)) =~= fvs_all_paths(s),
    decreases s,
{
    if s.len() > 0 {
        let s2 = spec_delete_at_in(s, p, name);
        if fv_contains(s[0], p) {
            lemma_delete_at_wf(s[0], p, name);
            assert(s2[0] == spec_delete_at(s[0], p, name));
            assert(s2.drop_first() =~= s.drop_first());
            assert(fvs_wf(s2));
            assert(fvs_all_paths(s2) =~= fvs_all_paths(s));
        } else {
            lemma_delete_at_in_wf(s.drop_first(), p, name);
            assert(s2[0] == s[0]);
            assert(s2.drop_first() =~= spec_delete_at_in(s.drop_first(), p, name));
            assert(fvs_wf(s2));
            assert(fvs_all_paths(s2) =~= fvs_all_paths(s));
        }
    }
}

/// Deletion changes no folder's presence either.
proof fn lemma_delete_keeps_folders(f: FolderView, p: Seq<char>, name: Seq<char>, q: Seq<char>)
    ensures
        fv_contains(spec_delete_at(f, p, name), q) == fv_contains(f, q),
    decreases f,
{
    if f.path != p {
        lemma_delete_in_keeps_folders(f.subfolders, p, name, q);
    }
}

proof fn lemma_delete_in_keeps_folders(
    s: Seq<FolderView>,
    p: Seq<char>,
    name: Seq<char>,
    q: Seq<char>,
)
    ensures
        fvs_contains(spec_delete_at_in(s, p, name), q) == fvs_contains(s, q),
    decreases s,
{
    if s.len() > 0 {
        let s2 = spec_delete_at_in(s, p, name);
        if fv_contains(s[0], p) {
            lemma_delete_keeps_folders(s[0], p, name, q);
            assert(s2[0] == spec_delete_at(s[0], p, name));
            assert(s2.drop_first() =~= s.drop_first());
        } else {
            lemma_delete_in_keeps_folders(s.drop_first(), p, name, q);
            assert(s2[0] == s[0]);
            assert(s2.drop_first() =~= spec_delete_at_in(s.drop_first(), p, name));
        }
    }
}

/// On a well-formed store a delete makes the job unobservable: looking
/// the same path and name up afterwards finds nothing, whether or not
/// the job existed.
pub proof fn lemma_delete_then_lookup(f: FolderView, p: Seq<char>, name: Seq<char>)
    requires
        fv_wf(f),
    ensures
        spec_lookup(spec_delete_at(f, p, name), p, name) is None,
    decreases f,
{
    if f.path == p {
        lemma_remove_task_gone(f.tasks, name);
    } else {
        lemma_delete_in_then_find(f.subfolders, p, name);
    }
}

proof fn lemma_delete_in_then_find(s: Seq<FolderView>, p: Seq<char>, name: Seq<char>)
    requires
        fvs_wf(s),
    ensures
        match spec_find_folder_in(spec_delete_at_in(s, p, name), p) {
            Some(g) => spec_find_task(g.tasks, name) is None,
            None => true,
        },
    decreases s,
{
    if s.len() > 0 {
        let s2 = spec_delete_at_in(s, p, name);
        if fv_contains(s[0], p) {
            lemma_delete_then_lookup(s[0], p, name);
            lemma_delete_keeps_folders(s[0], p, name, p);
            lemma_find_iff_contains(spec_delete_at(s[0], p, name), p);
            assert(s2[0] == spec_delete_at(s[0], p, name));
        } else {
            lemma_delete_in_then_find(s.drop_first(), p, name);
            lemma_find_iff_contains(s[0], p);
            assert(s2[0] == s[0]);
            assert(s2.drop_first() =~= spec_delete_at_in(s.drop_first(), p, name));
        }
    }
}

impl TaskService {
    /// Resolves a single job by exact folder path and name, without
    /// enumeration. Fails with `NotFound` where either is absent.
    pub fn lookup<'a>(&'a self, path: &str, name: &str) -> (r: Result<
        &'a RegisteredTask,
        TaskError,
    >)
        requires
            fv_wf(self@),
        ensures
            match r {
                Ok(rt) => spec_lookup(self@, path@, name@) == Some(rt@),
                Err(e) => e == TaskError::NotFound && spec_lookup(self@, path@, name@) is None,
            },
    {
        match find_folder(&self.root, path) {
            None => Err(TaskError::NotFound),
            Some(folder) => {
                match find_task_in(&folder.tasks, name) {
                    None => {
                        proof {
                            lemma_task_list_absent(
                                folder@.tasks,
                                name@,
                                spec_empty_definition(),
                            );
                        }
                        Err(TaskError::NotFound)
                    },
                    Some(i) => {
                        proof {
                            lemma_task_list_first(
                                folder@.tasks,
                                name@,
                                spec_empty_definition(),
                                i as int,
                            );
                        }
                        Ok(&folder.tasks[i])
                    },
                }
            },
        }
    }
}

impl TaskService {
    /// Registers `def` under `name` in the folder at `path`, with
    /// create-or-update semantics: an existing job of that name is
    /// overwritten. Returns the persisted job, or `RegistrationFailed`
    /// where no folder has path `path`.
    pub fn register_task<'a>(&'a mut self, path: &str, name: &str, def: TaskDefinition) -> (r:
        Result<&'a RegisteredTask, TaskError>)
        requires
            fv_wf(old(self)@),
        ensures
            fv_wf(final(self)@),
            fv_contains(old(self)@, path@) ==> (match r {
                Ok(rt) => rt@ == (RegisteredTaskView { name: name@, definition: def@ })
                    && final(self)@ == spec_register_at(old(self)@, path@, name@, def@),
                Err(_) => false,
            }),
            !fv_contains(old(self)@, path@) ==> (match r {
                Ok(_) => false,
                Err(e) => e == TaskError::RegistrationFailed && final(self)@ == old(self)@,
            }),
    {
        let ghost pre = self@;
        let mut root = TaskFolder { path: String::new(), tasks: Vec::new(), subfolders: Vec::new() };
        core::mem::swap(&mut root, &mut self.root);
        let (newroot, back) = register_at(root, path, name, def, Ghost(pre));
        self.root = newroot;
        proof {
            lemma_register_at_wf(pre, path@, name@, def@);
        }
        match back {
            Some(_) => {
                proof {
                    lemma_register_at_absent(pre, path@, name@, def@);
                }
                Err(TaskError::RegistrationFailed)
            },
            None => {
                proof {
                    lemma_register_then_lookup(pre, path@, name@, def@);
                }
                match find_folder(&self.root, path) {
                    Some(g) => {
                        match find_task_in(&g.tasks, name) {
                            Some(i) => {
                                proof {
                                    lemma_task_list_first(g@.tasks, name@, def@, i as int);
                                }
                                Ok(&g.tasks[i])
                            },
                            None => {
                                proof {
                                    lemma_task_list_absent(g@.tasks, name@, def@);
                                    assert(false);
                                }
                                Err(TaskError::RegistrationFailed)
                            },
                        }
                    },
                    None => {
                        proof {
                            assert(false);
                        }
                        Err(TaskError::RegistrationFailed)
                    },
                }
            },
        }
    }

    /// Deletes the job `name` from the folder at `path`. Deleting an
    /// absent job is an error, never a no-op: `NotFound` comes back
    /// whenever the folder or the job does not exist. A successful
    /// delete makes the job unobservable: a later lookup of the same
    /// path and name finds nothing.
    pub fn remove(&mut self, path: &str, name: &str) -> (r: Result<(), TaskError>)
        requires
            fv_wf(old(self)@),
        ensures
            fv_wf(final(self)@),
            match r {
                Ok(_) => spec_lookup(old(self)@, path@, name@) is Some && final(self)@
                    == spec_delete_at(old(self)@, path@, name@) && spec_lookup(
                    final(self)@,
                    path@,
                    name@,
                ) is None,
                Err(e) => e == TaskError::NotFound && spec_lookup(old(self)@, path@, name@) is None
                    && final(self)@ == old(self)@,
            },
    {
        let present = self.lookup(path, name).is_ok();
        if !present {
            return Err(TaskError::NotFound);
        }
        let ghost pre = self@;
        let mut root = TaskFolder { path: String::new(), tasks: Vec::new(), subfolders: Vec::new() };
        core::mem::swap(&mut root, &mut self.root);
        let (newroot, _found) = delete_at(root, path, name, Ghost(pre));
        self.root = newroot;
        proof {
            lemma_delete_at_wf(pre, path@, name@);
            lemma_delete_then_lookup(pre, path@, name@);
        }
        Ok(())
    }

    /// Produces every job beneath the folder at `path`, including all
    /// nested subfolders, as one flat collection in depth-first,
    /// pre-order. Hidden jobs are included, never filtered.
    pub fn list_all<'a>(&'a self, path: &str) -> (r: Result<Vec<&'a RegisteredTask>, TaskError>)
        requires
            fv_wf(self@),
        ensures
            match r {
                Ok(v) => (match spec_find_folder(self@, path@) {
                    Some(g) => v.deep_view() == fv_all_tasks(g),
                    None => false,
                }),
                Err(e) => e == TaskError::NotFound && spec_find_folder(self@, path@) is None,
            },
    {
        match find_folder(&self.root, path) {
            None => Err(TaskError::NotFound),
            Some(g) => {
                let mut out: Vec<&RegisteredTask> = Vec::new();
                proof {
                    assert(out.deep_view() =~= Seq::<RegisteredTaskView>::empty());
                }
                collect_tasks(g, &mut out);
                proof {
                    assert(out.deep_view() =~= fv_all_tasks(g@));
                }
                Ok(out)
            },
        }
    }
}

impl Task {
    /// Submits the accumulated definition to the bound folder under
    /// `name`, with create-or-update semantics: an existing job of that
    /// name is overwritten, never a conflict error. The persisted
    /// definition is unconditionally enabled. Fails with
    /// `RegistrationFailed` where the bound folder does not exist.
    pub fn register<'a>(self, name: &str, service: &'a mut TaskService) -> (r: Result<
        &'a RegisteredTask,
        TaskError,
    >)
        requires
            fv_wf(old(service)@),
        ensures
            fv_wf(final(service)@),
            fv_contains(old(service)@, self@.folder_path) ==> (match r {
                Ok(rt) => rt@ == (RegisteredTaskView {
                    name: name@,
                    definition: DefinitionView { enabled: true, ..self@.definition },
                }) && final(service)@ == spec_register_at(
                    old(service)@,
                    self@.folder_path,
                    name@,
                    DefinitionView { enabled: true, ..self@.definition },
                ),
                Err(_) => false,
            }),
            !fv_contains(old(service)@, self@.folder_path) ==> (match r {
                Ok(_) => false,
                Err(e) => e == TaskError::RegistrationFailed && final(service)@ == old(service)@,
            }),
    {
        let ghost sv = self@;
        let Task { definition, folder_path } = self;
        let mut definition = definition;
        definition.enabled = true;
        proof {
            assert(definition@ =~= (DefinitionView { enabled: true, ..sv.definition }));
        }
        service.register_task(folder_path.as_str(), name, definition)
    }

    /// Produces every job beneath the builder's bound folder, nested
    /// subfolders included, as one flat collection (depth-first,
    /// pre-order; hidden jobs included).
    pub fn get_registered_tasks<'a>(&self, service: &'a TaskService) -> (r: Result<
        Vec<&'a RegisteredTask>,
        TaskError,
    >)
        requires
            fv_wf(service@),
        ensures
            match r {
                Ok(v) => (match spec_find_folder(service@, self@.folder_path) {
                    Some(g) => v.deep_view() == fv_all_tasks(g),
                    None => false,
                }),
                Err(e) => e == TaskError::NotFound && spec_find_folder(
                    service@,
                    self@.folder_path,
                ) is None,
            },
    {
        service.list_all(self.folder_path.as_str())
    }

    /// Resolves a single job by exact folder path and name. Fails with
    /// `NotFound` where either is absent: an absent job never comes
    /// back as a default or empty one.
    pub fn get_task<'a>(path: &str, name: &str, service: &'a TaskService) -> (r: Result<
        &'a RegisteredTask,
        TaskError,
    >)
        requires
            fv_wf(service@),
        ensures
            match r {
                Ok(rt) => spec_lookup(service@, path@, name@) == Some(rt@),
                Err(e) => e == TaskError::NotFound && spec_lookup(service@, path@, name@) is None,
            },
    {
        service.lookup(path, name)
    }

    /// Deletes the job `name` from the folder at `path`. Deleting an
    /// absent job is an error, not a no-op; a successful delete makes
    /// the job unobservable to a later lookup.
    pub fn delete_task(path: &str, name: &str, service: &mut TaskService) -> (r: Result<
        (),
        TaskError,
    >)
        requires
            fv_wf(old(service)@),
        ensures
            fv_wf(final(service)@),
            match r {
                Ok(_) => spec_lookup(old(service)@, path@, name@) is Some && final(service)@
                    == spec_delete_at(old(service)@, path@, name@) && spec_lookup(
                    final(service)@,
                    path@,
                    name@,
                ) is None,
                Err(e) => e == TaskError::NotFound && spec_lookup(old(service)@, path@, name@)
                    is None && final(service)@ == old(service)@,
            },
    {
        service.remove(path, name)
    }
}

} // verus!

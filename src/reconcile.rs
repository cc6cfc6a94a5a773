//! Reconciliation of a page of forks against the remotes of a local
//! repository: per fork, report it, skip it, announce it, or ask for a remote
//! to be created and record how that went.
use vstd::prelude::*;
use crate::remote_name::{remote_name_of, unify_remote_name};

verus! {

/// What a run does with the forks it is given.
#[derive(Debug, Clone, Copy, PartialEq, Eq, Structural)]
pub enum Mode {
    /// Report each fork with its own fork count; never touch the remotes.
    ListOnly,
    /// Say which remotes would be added; never touch the remotes.
    DryRun,
    /// Add a remote for each fork that has none yet.
    Apply,
}

/// One fork as the hosting service lists it.
#[derive(Debug, Clone, PartialEq, Eq)]
pub struct ForkDescriptor {
    /// `owner/name` of the fork.
    pub full_name: String,
    pub clone_url: String,
    /// How many forks the fork has itself.
    pub forks_count: i64,
}

/// The outcome of one fork in a run.
#[derive(Debug, Clone, PartialEq, Eq)]
pub enum ReconcileAction {
    /// The fork's full name and fork count, in list-only mode.
    Report(String, i64),
    /// The remote of this name exists already.
    Skip(String),
    /// The remote of this name would be added.
    WouldAdd(String),
    /// The remote of this name was added.
    Added(String),
    /// The remote of this name could not be added, for the reason given.
    AddFailed(String, String),
}

/// `ReconcileAction` with its strings seen as character sequences.
pub enum ActionView {
    Report(Seq<char>, i64),
    Skip(Seq<char>),
    WouldAdd(Seq<char>),
    Added(Seq<char>),
    AddFailed(Seq<char>, Seq<char>),
}

impl View for ReconcileAction {
    type V = ActionView;

    open spec fn view(&self) -> ActionView {
        match self {
            ReconcileAction::Report(n, c) => ActionView::Report(n@, *c),
            ReconcileAction::Skip(n) => ActionView::Skip(n@),
            ReconcileAction::WouldAdd(n) => ActionView::WouldAdd(n@),
            ReconcileAction::Added(n) => ActionView::Added(n@),
            ReconcileAction::AddFailed(n, e) => ActionView::AddFailed(n@, e@),
        }
    }
}

/// What the caller of a run is to do next.
#[derive(Debug, Clone, PartialEq, Eq)]
pub enum Step {
    /// Nothing to do but to show this outcome.
    Emit(ReconcileAction),
    /// Create the remote of this name (first) for this URL (second) and hand
    /// back how that went.
    Create(String, String),
    /// Every fork has its outcome.
    Finished,
}

/// The views of a sequence of actions.
pub open spec fn views(s: Seq<ReconcileAction>) -> Seq<ActionView> {
    s.map_values(|a: ReconcileAction| a@)
}

/// The views of a sequence of remote names.
pub open spec fn names_of(v: Seq<String>) -> Seq<Seq<char>> {
    v.map_values(|s: String| s@)
}

/// Whether the fork calls for a remote to be created.
pub open spec fn needs_creation(fork: ForkDescriptor, existing: Seq<Seq<char>>, mode: Mode) -> bool {
    mode == Mode::Apply && !existing.contains(remote_name_of(fork.full_name@))
}

/// The outcome of a fork that calls for no remote to be created.
pub open spec fn settled_action(
    fork: ForkDescriptor,
    existing: Seq<Seq<char>>,
    mode: Mode,
) -> ActionView {
    let id = remote_name_of(fork.full_name@);
    if mode == Mode::ListOnly {
        ActionView::Report(fork.full_name@, fork.forks_count)
    } else if existing.contains(id) {
        ActionView::Skip(id)
    } else {
        ActionView::WouldAdd(id)
    }
}

/// `a` is an outcome that the fork can have: the settled one, or, where a
/// remote is to be created, that it was added or that adding it failed.
pub open spec fn fits(fork: ForkDescriptor, existing: Seq<Seq<char>>, mode: Mode, a: ActionView) -> bool {
    let id = remote_name_of(fork.full_name@);
    if needs_creation(fork, existing, mode) {
        a == ActionView::Added(id) || (a is AddFailed && a->AddFailed_0 == id)
    } else {
        a == settled_action(fork, existing, mode)
    }
}

/// `actions` are the outcomes of the first forks, one each, in fork order.
pub open spec fn is_partial_run(
    forks: Seq<ForkDescriptor>,
    existing: Seq<Seq<char>>,
    mode: Mode,
    actions: Seq<ActionView>,
) -> bool {
    &&& actions.len() <= forks.len()
    &&& forall|i: int| 0 <= i < actions.len() ==> fits(forks[i], existing, mode, #[trigger] actions[i])
}

/// `actions` are the outcomes of all the forks, one each, in fork order.
pub open spec fn is_run(
    forks: Seq<ForkDescriptor>,
    existing: Seq<Seq<char>>,
    mode: Mode,
    actions: Seq<ActionView>,
) -> bool {
    is_partial_run(forks, existing, mode, actions) && actions.len() == forks.len()
}

/// The names of the remotes that a run added, in the order it added them.
pub open spec fn added_names(actions: Seq<ActionView>) -> Seq<Seq<char>>
    decreases actions.len(),
{
    if actions.len() == 0 {
        Seq::empty()
    } else {
        let rest = added_names(actions.drop_last());
        match actions.last() {
            ActionView::Added(n) => rest.push(n),
            _ => rest,
        }
    }
}

/// The remote names after a run: those that existed, then those it added.
pub open spec fn remotes_after(existing: Seq<Seq<char>>, actions: Seq<ActionView>) -> Seq<Seq<char>> {
    existing + added_names(actions)
}

/// The name that an outcome is about: the full name in a report, the remote
/// name otherwise.
pub open spec fn action_label(a: ActionView) -> Seq<char> {
    match a {
        ActionView::Report(n, _) => n,
        ActionView::Skip(n) => n,
        ActionView::WouldAdd(n) => n,
        ActionView::Added(n) => n,
        ActionView::AddFailed(n, _) => n,
    }
}

/// The name that the outcome of `fork` is about in `mode`.
pub open spec fn fork_label(fork: ForkDescriptor, mode: Mode) -> Seq<char> {
    if mode == Mode::ListOnly {
        fork.full_name@
    } else {
        remote_name_of(fork.full_name@)
    }
}

proof fn lemma_added_names_hold(actions: Seq<ActionView>, i: int)
    requires
        0 <= i < actions.len(),
        actions[i] is Added,
    ensures
        added_names(actions).contains(actions[i]->Added_0),
    decreases actions.len(),
{
    let rest = added_names(actions.drop_last());
    if i == actions.len() - 1 {
        assert(added_names(actions)[rest.len() as int] == actions[i]->Added_0);
    } else {
        assert(actions.drop_last()[i] == actions[i]);
        lemma_added_names_hold(actions.drop_last(), i);
        let j = choose|j: int| 0 <= j < rest.len() && rest[j] == actions[i]->Added_0;
        assert(added_names(actions)[j] == rest[j]);
    }
}

proof fn lemma_nothing_added(actions: Seq<ActionView>)
    requires
        forall|i: int| 0 <= i < actions.len() ==> !(#[trigger] actions[i] is Added),
    ensures
        added_names(actions) == Seq::<Seq<char>>::empty(),
    decreases actions.len(),
{
    if actions.len() > 0 {
        let shorter = actions.drop_last();
        assert forall|i: int| 0 <= i < shorter.len() implies !(#[trigger] shorter[i] is Added) by {
            assert(shorter[i] == actions[i]);
        }
        lemma_nothing_added(shorter);
        assert(!(actions[actions.len() - 1] is Added));
    }
}

/// Running again over the same forks in apply mode, against the remotes as
/// the first run left them, skips every fork whose remote the first run found
/// or added. So where no addition failed in the first run, the second adds
/// nothing and skips every fork.
pub proof fn lemma_second_run_skips(
    forks: Seq<ForkDescriptor>,
    existing: Seq<Seq<char>>,
    first: Seq<ActionView>,
    second: Seq<ActionView>,
)
    requires
        is_run(forks, existing, Mode::Apply, first),
        is_run(forks, remotes_after(existing, first), Mode::Apply, second),
    ensures
        forall|i: int|
            0 <= i < forks.len() && !(first[i] is AddFailed) ==> #[trigger] second[i]
                == ActionView::Skip(remote_name_of(forks[i].full_name@)),
        (forall|i: int| 0 <= i < first.len() ==> !(#[trigger] first[i] is AddFailed)) ==> forall|
            i: int,
        | 0 <= i < second.len() ==> (#[trigger] second[i]) is Skip,
{
    let after = remotes_after(existing, first);
    assert forall|i: int| 0 <= i < forks.len() && !(first[i] is AddFailed) implies #[trigger] second[i]
        == ActionView::Skip(remote_name_of(forks[i].full_name@)) by {
        let id = remote_name_of(forks[i].full_name@);
        assert(fits(forks[i], existing, Mode::Apply, first[i]));
        assert(fits(forks[i], after, Mode::Apply, second[i]));
        if existing.contains(id) {
            let j = choose|j: int| 0 <= j < existing.len() && existing[j] == id;
            assert(after[j] == id);
        } else {
            lemma_added_names_hold(first, i);
            let added = added_names(first);
            let j = choose|j: int| 0 <= j < added.len() && added[j] == id;
            assert(after[existing.len() + j] == id);
        }
        assert(after.contains(id));
    }
}

/// A run in list-only or dry-run mode adds no remote: the remotes after it
/// are those before it, and no outcome is an addition or a failed one.
pub proof fn lemma_no_mutation_without_apply(
    forks: Seq<ForkDescriptor>,
    existing: Seq<Seq<char>>,
    mode: Mode,
    actions: Seq<ActionView>,
)
    requires
        mode != Mode::Apply,
        is_run(forks, existing, mode, actions),
    ensures
        remotes_after(existing, actions) == existing,
        forall|i: int|
            0 <= i < actions.len() ==> !(#[trigger] actions[i] is Added) && !(actions[i] is AddFailed),
{
    assert forall|i: int| 0 <= i < actions.len() implies !(#[trigger] actions[i] is Added) && !(
    actions[i] is AddFailed) by {
        assert(fits(forks[i], existing, mode, actions[i]));
    }
    lemma_nothing_added(actions);
    assert(remotes_after(existing, actions) =~= existing);
}

/// In list-only mode every fork is reported with its full name and its own
/// fork count, in fork order.
pub proof fn lemma_list_only_reports(
    forks: Seq<ForkDescriptor>,
    existing: Seq<Seq<char>>,
    actions: Seq<ActionView>,
)
    requires
        is_run(forks, existing, Mode::ListOnly, actions),
    ensures
        forall|i: int|
            0 <= i < actions.len() ==> #[trigger] actions[i] == ActionView::Report(
                forks[i].full_name@,
                forks[i].forks_count,
            ),
{
    assert forall|i: int| 0 <= i < actions.len() implies #[trigger] actions[i] == ActionView::Report(
        forks[i].full_name@,
        forks[i].forks_count,
    ) by {
        assert(fits(forks[i], existing, Mode::ListOnly, actions[i]));
    }
}

/// The outcomes of a run follow the forks in their order: the outcome at
/// each position is about the fork at that position.
pub proof fn lemma_run_keeps_fork_order(
    forks: Seq<ForkDescriptor>,
    existing: Seq<Seq<char>>,
    mode: Mode,
    actions: Seq<ActionView>,
)
    requires
        is_run(forks, existing, mode, actions),
    ensures
        actions.map_values(|a: ActionView| action_label(a)) == forks.map_values(
            |f: ForkDescriptor| fork_label(f, mode),
        ),
{
    assert forall|i: int| 0 <= i < actions.len() implies action_label(#[trigger] actions[i])
        == fork_label(forks[i], mode) by {
        assert(fits(forks[i], existing, mode, actions[i]));
    }
    assert(actions.map_values(|a: ActionView| action_label(a)) =~= forks.map_values(
        |f: ForkDescriptor| fork_label(f, mode),
    ));
}

/// A copy of `a`, field by field.
fn copy_action(a: &ReconcileAction) -> (r: ReconcileAction)
    ensures
        r@ == a@,
{
    match a {
        ReconcileAction::Report(n, c) => ReconcileAction::Report(n.clone(), *c),
        ReconcileAction::Skip(n) => ReconcileAction::Skip(n.clone()),
        ReconcileAction::WouldAdd(n) => ReconcileAction::WouldAdd(n.clone()),
        ReconcileAction::Added(n) => ReconcileAction::Added(n.clone()),
        ReconcileAction::AddFailed(n, e) => ReconcileAction::AddFailed(n.clone(), e.clone()),
    }
}

/// Whether some entry of `names` equals `id`.
fn contains_name(names: &Vec<String>, id: &String) -> (r: bool)
    ensures
        r == names_of(names@).contains(id@),
{
    let mut j: usize = 0;
    while j < names.len()
        invariant
            j <= names@.len(),
            forall|t: int| 0 <= t < j ==> (#[trigger] names@[t])@ != id@,
        decreases names.len() - j,
    {
        if names[j] == *id {
            assert(names_of(names@)[j as int] == id@);
            return true;
        }
        j = j + 1;
    }
    proof {
        if names_of(names@).contains(id@) {
            let t = choose|t: int| 0 <= t < names_of(names@).len() && names_of(names@)[t] == id@;
            assert(names@[t]@ == id@);
        }
    }
    false
}

/// Decides what a fork calls for, given the remotes that exist and the mode.
pub fn decide(fork: &ForkDescriptor, existing: &Vec<String>, mode: Mode) -> (s: Step)
    ensures
        needs_creation(*fork, names_of(existing@), mode) ==> (s matches Step::Create(name, url)
            && name@ == remote_name_of(fork.full_name@) && url@ == fork.clone_url@),
        !needs_creation(*fork, names_of(existing@), mode) ==> (s matches Step::Emit(a) && a@
            == settled_action(*fork, names_of(existing@), mode)),
{
    if mode == Mode::ListOnly {
        return Step::Emit(ReconcileAction::Report(fork.full_name.clone(), fork.forks_count));
    }
    let id = unify_remote_name(&fork.full_name);
    if contains_name(existing, &id) {
        Step::Emit(ReconcileAction::Skip(id))
    } else if mode == Mode::DryRun {
        Step::Emit(ReconcileAction::WouldAdd(id))
    } else {
        Step::Create(id, fork.clone_url.clone())
    }
}

/// A run over one page of forks, fork by fork, in the order given. The
/// remotes that exist are read once, when the run starts.
pub struct Reconciler {
    forks: Vec<ForkDescriptor>,
    existing: Vec<String>,
    mode: Mode,
    actions: Vec<ReconcileAction>,
    pending: Option<String>,
}

/// The fork at `k` awaits the creation of its remote `name`.
pub open spec fn awaits_creation(
    forks: Seq<ForkDescriptor>,
    existing: Seq<Seq<char>>,
    mode: Mode,
    k: int,
    name: Seq<char>,
) -> bool {
    &&& 0 <= k < forks.len()
    &&& needs_creation(forks[k], existing, mode)
    &&& name == remote_name_of(forks[k].full_name@)
}

impl Reconciler {
    /// The forks of the run.
    pub closed spec fn forks_view(&self) -> Seq<ForkDescriptor> {
        self.forks@
    }

    /// The remote names that existed when the run started.
    pub closed spec fn existing_view(&self) -> Seq<Seq<char>> {
        names_of(self.existing@)
    }

    pub closed spec fn mode_view(&self) -> Mode {
        self.mode
    }

    /// The outcomes so far, one for each of the first forks.
    pub closed spec fn actions_view(&self) -> Seq<ActionView> {
        views(self.actions@)
    }

    /// The remote whose creation was asked for and whose result is awaited.
    pub closed spec fn pending_view(&self) -> Option<Seq<char>> {
        match self.pending {
            Some(n) => Some(n@),
            None => None,
        }
    }

    #[verifier::type_invariant]
    closed spec fn inv(self) -> bool {
        &&& is_partial_run(
            self.forks_view(),
            self.existing_view(),
            self.mode_view(),
            self.actions_view(),
        )
        &&& (self.pending_view() matches Some(n) ==> awaits_creation(
            self.forks_view(),
            self.existing_view(),
            self.mode_view(),
            self.actions_view().len() as int,
            n,
        ))
    }

    /// Starts a run over `forks`, against the remote names in `existing`.
    pub fn new(forks: Vec<ForkDescriptor>, existing: Vec<String>, mode: Mode) -> (r: Reconciler)
        ensures
            r.forks_view() == forks@,
            r.existing_view() == names_of(existing@),
            r.mode_view() == mode,
            r.actions_view() == Seq::<ActionView>::empty(),
            r.pending_view() is None,
    {
        let r = Reconciler { forks, existing, mode, actions: Vec::new(), pending: None };
        assert(r.actions_view() =~= Seq::<ActionView>::empty());
        r
    }

    /// Moves the run on by one fork where that needs nothing from outside.
    /// Where a remote is to be created, asks for it, and asks again until its
    /// result is handed to `record_creation`.
    pub fn next_step(self) -> (r: (Reconciler, Step))
        ensures
            r.0.forks_view() == self.forks_view(),
            r.0.existing_view() == self.existing_view(),
            r.0.mode_view() == self.mode_view(),
            self.pending_view() matches Some(n) ==> (r.1 matches Step::Create(name, url) && name@
                == n && url@ == self.forks_view()[self.actions_view().len() as int].clone_url@
                && r.0.actions_view() == self.actions_view() && r.0.pending_view()
                == self.pending_view()),
            self.pending_view() is None && self.actions_view().len() == self.forks_view().len()
                ==> (r.1 is Finished && r.0.actions_view() == self.actions_view()
                && r.0.pending_view() is None),
            self.pending_view() is None && self.actions_view().len() < self.forks_view().len()
                && needs_creation(
                self.forks_view()[self.actions_view().len() as int],
                self.existing_view(),
                self.mode_view(),
            ) ==> (r.1 matches Step::Create(name, url) && name@ == remote_name_of(
                self.forks_view()[self.actions_view().len() as int].full_name@,
            ) && url@ == self.forks_view()[self.actions_view().len() as int].clone_url@
                && r.0.actions_view() == self.actions_view() && r.0.pending_view() == Some(
                name@,
            )),
            self.pending_view() is None && self.actions_view().len() < self.forks_view().len()
                && !needs_creation(
                self.forks_view()[self.actions_view().len() as int],
                self.existing_view(),
                self.mode_view(),
            ) ==> (r.1 matches Step::Emit(a) && a@ == settled_action(
                self.forks_view()[self.actions_view().len() as int],
                self.existing_view(),
                self.mode_view(),
            ) && r.0.actions_view() == self.actions_view().push(a@) && r.0.pending_view() is None),
            self.mode_view() != Mode::Apply ==> !(r.1 is Create),
    {
        proof {
            use_type_invariant(&self);
        }
        let Reconciler { forks, existing, mode, mut actions, pending } = self;
        let k = actions.len();
        match pending {
            Some(name) => {
                let url = forks[k].clone_url.clone();
                let step = Step::Create(name.clone(), url);
                (Reconciler { forks, existing, mode, actions, pending: Some(name) }, step)
            },
            None => {
                if k == forks.len() {
                    return (Reconciler { forks, existing, mode, actions, pending: None }, Step::Finished);
                }
                let step = decide(&forks[k], &existing, mode);
                match step {
                    Step::Emit(a) => {
                        let ghost before = actions@;
                        actions.push(copy_action(&a));
                        proof {
                            assert(views(actions@) =~= views(before).push(a@));
                        }
                        (Reconciler { forks, existing, mode, actions, pending: None }, Step::Emit(a))
                    },
                    Step::Create(name, url) => {
                        let pending = Some(name.clone());
                        (Reconciler { forks, existing, mode, actions, pending }, Step::Create(name, url))
                    },
                    Step::Finished => {
                        (Reconciler { forks, existing, mode, actions, pending: None }, Step::Finished)
                    },
                }
            },
        }
    }

    /// Records how the creation asked for went: the remote was added, or
    /// adding it failed for the reason given. With no creation awaited,
    /// changes nothing and returns `None`.
    pub fn record_creation(self, result: Result<(), String>) -> (r: (Reconciler, Option<ReconcileAction>))
        ensures
            r.0.forks_view() == self.forks_view(),
            r.0.existing_view() == self.existing_view(),
            r.0.mode_view() == self.mode_view(),
            r.0.pending_view() is None,
            self.pending_view() is None ==> (r.1 is None && r.0.actions_view() == self.actions_view()),
            self.pending_view() matches Some(n) ==> (r.1 matches Some(a) && r.0.actions_view()
                == self.actions_view().push(a@) && a@ == match result {
                Ok(_) => ActionView::Added(n),
                Err(e) => ActionView::AddFailed(n, e@),
            }),
    {
        proof {
            use_type_invariant(&self);
        }
        let Reconciler { forks, existing, mode, mut actions, pending } = self;
        match pending {
            None => (Reconciler { forks, existing, mode, actions, pending: None }, None),
            Some(name) => {
                let a = match result {
                    Ok(()) => ReconcileAction::Added(name),
                    Err(e) => ReconcileAction::AddFailed(name, e),
                };
                let ghost before = actions@;
                actions.push(copy_action(&a));
                proof {
                    assert(views(actions@) =~= views(before).push(a@));
                }
                (Reconciler { forks, existing, mode, actions, pending: None }, Some(a))
            },
        }
    }

    /// The outcomes so far, in fork order.
    pub fn actions(&self) -> (r: &Vec<ReconcileAction>)
        ensures
            views(r@) == self.actions_view(),
            is_partial_run(self.forks_view(), self.existing_view(), self.mode_view(), views(r@)),
    {
        proof {
            use_type_invariant(self);
        }
        &self.actions
    }

    /// Whether every fork has its outcome.
    pub fn is_finished(&self) -> (r: bool)
        ensures
            r == (self.actions_view().len() == self.forks_view().len()),
            r ==> is_run(self.forks_view(), self.existing_view(), self.mode_view(), self.actions_view()),
            r ==> self.pending_view() is None,
    {
        proof {
            use_type_invariant(self);
        }
        self.actions.len() == self.forks.len()
    }

    /// Ends the run and hands out its outcomes, in fork order.
    pub fn into_actions(self) -> (r: Vec<ReconcileAction>)
        ensures
            views(r@) == self.actions_view(),
            is_partial_run(self.forks_view(), self.existing_view(), self.mode_view(), views(r@)),
    {
        proof {
            use_type_invariant(&self);
        }
        let Reconciler { actions, .. } = self;
        actions
    }
}

} // verus!

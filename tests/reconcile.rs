use rgf::{decide, ForkDescriptor, Mode, ReconcileAction, Reconciler, Step};

fn fork(full_name: &str, forks_count: i64) -> ForkDescriptor {
    ForkDescriptor {
        full_name: full_name.to_string(),
        clone_url: format!("https://github.com/{}.git", full_name),
        forks_count,
    }
}

fn names(v: &[&str]) -> Vec<String> {
    v.iter().map(|s| s.to_string()).collect()
}

/// Drives a run against an in-memory remote store; creating a remote whose
/// name is in `refuse` fails. Returns the outcomes and the creations asked for.
fn run(
    forks: Vec<ForkDescriptor>,
    existing: &[String],
    mode: Mode,
    store: &mut Vec<(String, String)>,
    refuse: &[&str],
) -> (Vec<ReconcileAction>, usize) {
    let mut rec = Reconciler::new(forks, existing.to_vec(), mode);
    let mut emitted = Vec::new();
    let mut asked = 0;
    loop {
        let (next, step) = rec.next_step();
        rec = next;
        match step {
            Step::Finished => break,
            Step::Emit(a) => emitted.push(a),
            Step::Create(name, url) => {
                asked += 1;
                let result = if refuse.contains(&name.as_str()) {
                    Err(format!("remote '{}' refused", name))
                } else {
                    store.push((name, url));
                    Ok(())
                };
                let (next, a) = rec.record_creation(result);
                rec = next;
                emitted.push(a.unwrap());
            }
        }
    }
    assert!(rec.is_finished());
    assert_eq!(rec.actions(), &emitted);
    (rec.into_actions(), asked)
}

fn sample_forks() -> Vec<ForkDescriptor> {
    vec![fork("acme/fork1", 0), fork("acme/fork2", 2)]
}

#[test]
fn apply_skips_existing_and_adds_missing() {
    let existing = names(&["rgf__acme_fork1"]);
    let mut store = Vec::new();
    let (actions, asked) = run(sample_forks(), &existing, Mode::Apply, &mut store, &[]);
    assert_eq!(
        actions,
        vec![
            ReconcileAction::Skip("rgf__acme_fork1".to_string()),
            ReconcileAction::Added("rgf__acme_fork2".to_string()),
        ]
    );
    assert_eq!(asked, 1);
    assert_eq!(
        store,
        vec![("rgf__acme_fork2".to_string(), "https://github.com/acme/fork2.git".to_string())]
    );
}

#[test]
fn dry_run_announces_without_touching_the_store() {
    let existing = names(&["rgf__acme_fork1"]);
    let mut store = Vec::new();
    let (actions, asked) = run(sample_forks(), &existing, Mode::DryRun, &mut store, &[]);
    assert_eq!(
        actions,
        vec![
            ReconcileAction::Skip("rgf__acme_fork1".to_string()),
            ReconcileAction::WouldAdd("rgf__acme_fork2".to_string()),
        ]
    );
    assert_eq!(asked, 0);
    assert!(store.is_empty());
}

#[test]
fn list_only_reports_every_fork() {
    let existing = names(&["rgf__acme_fork1"]);
    let mut store = Vec::new();
    let (actions, asked) = run(sample_forks(), &existing, Mode::ListOnly, &mut store, &[]);
    assert_eq!(
        actions,
        vec![
            ReconcileAction::Report("acme/fork1".to_string(), 0),
            ReconcileAction::Report("acme/fork2".to_string(), 2),
        ]
    );
    assert_eq!(asked, 0);
    assert!(store.is_empty());
}

#[test]
fn second_apply_run_skips_everything() {
    let forks = vec![fork("a/one", 0), fork("b/two", 1), fork("c/three", 5)];
    let existing = names(&["origin", "rgf__b_two"]);
    let mut store = Vec::new();
    let (first, _) = run(forks.clone(), &existing, Mode::Apply, &mut store, &[]);
    assert_eq!(
        first,
        vec![
            ReconcileAction::Added("rgf__a_one".to_string()),
            ReconcileAction::Skip("rgf__b_two".to_string()),
            ReconcileAction::Added("rgf__c_three".to_string()),
        ]
    );
    let mut after = existing.clone();
    after.extend(store.iter().map(|(n, _)| n.clone()));
    let mut store2 = Vec::new();
    let (second, asked) = run(forks, &after, Mode::Apply, &mut store2, &[]);
    assert_eq!(
        second,
        vec![
            ReconcileAction::Skip("rgf__a_one".to_string()),
            ReconcileAction::Skip("rgf__b_two".to_string()),
            ReconcileAction::Skip("rgf__c_three".to_string()),
        ]
    );
    assert_eq!(asked, 0);
    assert!(store2.is_empty());
}

#[test]
fn failed_creation_is_recorded_and_the_run_goes_on() {
    let forks = vec![fork("a/one", 0), fork("b/two", 0)];
    let mut store = Vec::new();
    let (actions, asked) = run(forks, &[], Mode::Apply, &mut store, &["rgf__a_one"]);
    assert_eq!(
        actions,
        vec![
            ReconcileAction::AddFailed(
                "rgf__a_one".to_string(),
                "remote 'rgf__a_one' refused".to_string()
            ),
            ReconcileAction::Added("rgf__b_two".to_string()),
        ]
    );
    assert_eq!(asked, 2);
}

#[test]
fn outcomes_follow_fork_order() {
    let forks = vec![fork("z/last", 0), fork("a/first", 0), fork("m/middle", 0)];
    let existing = names(&["rgf__a_first"]);
    let mut store = Vec::new();
    let (actions, _) = run(forks, &existing, Mode::DryRun, &mut store, &[]);
    assert_eq!(
        actions,
        vec![
            ReconcileAction::WouldAdd("rgf__z_last".to_string()),
            ReconcileAction::Skip("rgf__a_first".to_string()),
            ReconcileAction::WouldAdd("rgf__m_middle".to_string()),
        ]
    );
}

#[test]
fn empty_page_finishes_at_once() {
    let rec = Reconciler::new(Vec::new(), Vec::new(), Mode::Apply);
    assert!(rec.is_finished());
    let (rec, step) = rec.next_step();
    assert_eq!(step, Step::Finished);
    assert!(rec.into_actions().is_empty());
}

#[test]
fn creation_is_asked_until_recorded() {
    let rec = Reconciler::new(vec![fork("a/one", 0)], Vec::new(), Mode::Apply);
    let (rec, step) = rec.next_step();
    let expected = Step::Create(
        "rgf__a_one".to_string(),
        "https://github.com/a/one.git".to_string(),
    );
    assert_eq!(step, expected);
    assert!(!rec.is_finished());
    let (rec, again) = rec.next_step();
    assert_eq!(again, expected);
    let (rec, a) = rec.record_creation(Ok(()));
    assert_eq!(a, Some(ReconcileAction::Added("rgf__a_one".to_string())));
    assert!(rec.is_finished());
    let (rec, none) = rec.record_creation(Ok(()));
    assert_eq!(none, None);
    assert_eq!(rec.actions().len(), 1);
}

#[test]
fn decide_per_mode() {
    let f = fork("acme/fork2", 3);
    let existing = names(&["rgf__acme_fork1"]);
    assert_eq!(
        decide(&f, &existing, Mode::ListOnly),
        Step::Emit(ReconcileAction::Report("acme/fork2".to_string(), 3))
    );
    assert_eq!(
        decide(&f, &existing, Mode::DryRun),
        Step::Emit(ReconcileAction::WouldAdd("rgf__acme_fork2".to_string()))
    );
    assert_eq!(
        decide(&f, &existing, Mode::Apply),
        Step::Create(
            "rgf__acme_fork2".to_string(),
            "https://github.com/acme/fork2.git".to_string()
        )
    );
    let g = fork("acme/fork1", 0);
    assert_eq!(
        decide(&g, &existing, Mode::Apply),
        Step::Emit(ReconcileAction::Skip("rgf__acme_fork1".to_string()))
    );
}

use cargo_jobs::{
    dependencies, self_edge, Completion, DependencyDecl, Freshness, GraphError, JobQueue, JobQueueError, Key,
    Package, PackageId, PackageSet, Resolve, StatusLine, TargetStage,
};

const STAGES: [TargetStage; 5] = [
    TargetStage::Start,
    TargetStage::CustomBuild,
    TargetStage::Libraries,
    TargetStage::Binaries,
    TargetStage::Tests,
];

#[derive(Clone, Copy, Debug)]
struct TestJob {
    id: u32,
    ok: bool,
}

struct Message {
    key: Key,
    fresh: Freshness,
    job: Option<TestJob>,
}

#[derive(Default)]
struct Trace {
    dispatched: Vec<(String, TargetStage, Freshness)>,
    finished: Vec<(String, TargetStage, Freshness)>,
    status: Vec<(String, StatusLine)>,
    effective: Vec<(u32, Freshness)>,
    failed_lines: usize,
    drained: usize,
    events: Vec<String>,
}

fn event(t: &Trace, what: &str, name: &str, stage: TargetStage) -> usize {
    let e = format!("{} {} {:?}", what, name, stage);
    t.events.iter().position(|x| *x == e).expect("event not seen")
}

fn pid(name: &str) -> PackageId {
    PackageId::new(name.to_string(), "1.0.0".to_string())
}

fn pkg(name: &str, deps: &[(&str, bool)]) -> Package {
    Package {
        id: pid(name),
        dependencies: deps
            .iter()
            .map(|(d, t)| DependencyDecl { name: d.to_string(), transitive: *t })
            .collect(),
        root: format!("/work/{}", name),
    }
}

fn resolve(edges: &[(&str, &[&str])]) -> Resolve {
    Resolve { edges: edges.iter().map(|(p, ds)| (pid(p), ds.iter().map(|d| pid(d)).collect())).collect() }
}

fn set(pkgs: Vec<Package>) -> PackageSet {
    PackageSet { packages: pkgs }
}

fn position(list: &[(String, TargetStage, Freshness)], name: &str, stage: TargetStage) -> usize {
    list.iter().position(|(n, s, _)| n == name && *s == stage).expect("key not seen")
}

/// Drives the queue to the end, delivering synthetic completions first and
/// failing jobs before successful ones.
fn drive(jq: &mut JobQueue<TestJob>) -> (Result<(), u32>, Trace) {
    let mut trace = Trace::default();
    let mut inflight: Vec<Message> = Vec::new();
    while !jq.is_finished() {
        while let Some(d) = jq.next_dispatch() {
            let name = d.key.pkg.name.clone();
            trace.events.push(format!("dispatch {} {:?}", name, d.key.stage));
            trace.dispatched.push((name.clone(), d.key.stage, d.fresh));
            trace.status.push((name, d.status));
            for (i, (job, _)) in d.jobs.iter().enumerate() {
                trace.effective.push((job.id, d.effective[i]));
                inflight.push(Message { key: d.key.copy(), fresh: d.effective[i], job: Some(*job) });
            }
            if d.synthetic {
                inflight.push(Message { key: d.key.copy(), fresh: d.fresh, job: None });
            }
        }
        let pick = inflight
            .iter()
            .position(|m| m.job.is_none())
            .or_else(|| inflight.iter().position(|m| matches!(m.job, Some(j) if !j.ok)))
            .unwrap_or(0);
        let m = inflight.remove(pick);
        let ok = m.job.map(|j| j.ok).unwrap_or(true);
        match jq.complete(&m.key, m.fresh, ok) {
            Completion::Finished(f) => {
                trace.events.push(format!("finish {} {:?}", m.key.pkg.name, m.key.stage));
                trace.finished.push((m.key.pkg.name.clone(), m.key.stage, f))
            }
            Completion::Failed(n) => {
                if n > 0 {
                    trace.failed_lines += 1;
                }
                for _ in 0..n {
                    let d = inflight.remove(0);
                    let dok = d.job.map(|j| j.ok).unwrap_or(true);
                    match jq.complete(&d.key, d.fresh, dok) {
                        Completion::Drained(_) => trace.drained += 1,
                        other => panic!("unexpected {:?}", other),
                    }
                }
                assert!(jq.next_dispatch().is_none());
                return (Err(m.job.unwrap().id), trace);
            }
            Completion::Progress => {}
            other => panic!("unexpected {:?}", other),
        }
    }
    (Ok(()), trace)
}

fn enqueue_all(jq: &mut JobQueue<TestJob>, p: &Package, stages: &[TargetStage]) {
    for s in stages {
        assert!(jq.enqueue(p, *s, Vec::new()).is_ok());
    }
}

#[test]
fn combine_is_dirty_absorbing() {
    assert_eq!(Freshness::Fresh.combine(Freshness::Fresh), Freshness::Fresh);
    assert_eq!(Freshness::Fresh.combine(Freshness::Dirty), Freshness::Dirty);
    assert_eq!(Freshness::Dirty.combine(Freshness::Fresh), Freshness::Dirty);
    assert_eq!(Freshness::Dirty.combine(Freshness::Dirty), Freshness::Dirty);
}

#[test]
fn linear_chain_all_fresh() {
    let a = pkg("a", &[]);
    let b = pkg("b", &[("a", true)]);
    let c = pkg("c", &[("b", true)]);
    let r = resolve(&[("b", &["a"]), ("c", &["b"])]);
    let mut jq: JobQueue<TestJob> = JobQueue::new(r, set(vec![pkg("a", &[]), pkg("b", &[("a", true)]), pkg("c", &[("b", true)])]));
    let four = &STAGES[..4];
    enqueue_all(&mut jq, &c, four);
    enqueue_all(&mut jq, &b, four);
    enqueue_all(&mut jq, &a, four);
    let (res, t) = drive(&mut jq);
    assert_eq!(res, Ok(()));
    assert_eq!(t.finished.len(), 12);
    assert!(t.finished.iter().all(|(_, _, f)| *f == Freshness::Fresh));
    let f = &t.finished;
    assert!(position(f, "a", TargetStage::Start) < position(f, "a", TargetStage::CustomBuild));
    assert!(position(f, "a", TargetStage::CustomBuild) < position(f, "a", TargetStage::Libraries));
    assert!(position(f, "a", TargetStage::Libraries) < position(f, "a", TargetStage::Binaries));
    assert!(event(&t, "finish", "a", TargetStage::Libraries) < event(&t, "dispatch", "b", TargetStage::Start));
    assert!(event(&t, "finish", "b", TargetStage::Libraries) < event(&t, "dispatch", "c", TargetStage::Start));
    for n in ["a", "b", "c"] {
        assert!(event(&t, "finish", n, TargetStage::Start) < event(&t, "dispatch", n, TargetStage::CustomBuild));
        assert!(event(&t, "finish", n, TargetStage::Libraries) < event(&t, "dispatch", n, TargetStage::Binaries));
    }
    assert_eq!(jq.active_jobs(), 0);
    assert!(t.status.iter().all(|(_, s)| *s != StatusLine::Compiling));
}

#[test]
fn dirty_leaf_taints_root() {
    let a = pkg("a", &[("b", true)]);
    let b = pkg("b", &[]);
    let r = resolve(&[("a", &["b"])]);
    let mut jq: JobQueue<TestJob> = JobQueue::new(r, set(vec![pkg("a", &[("b", true)]), pkg("b", &[])]));
    for s in &STAGES[..4] {
        let jobs = if *s == TargetStage::Libraries {
            vec![(TestJob { id: 1, ok: true }, Freshness::Dirty)]
        } else {
            Vec::new()
        };
        assert!(jq.enqueue(&b, *s, jobs).is_ok());
        assert!(jq.enqueue(&a, *s, vec![(TestJob { id: 10, ok: true }, Freshness::Fresh)]).is_ok());
    }
    let (res, t) = drive(&mut jq);
    assert_eq!(res, Ok(()));
    let start_a = position(&t.dispatched, "a", TargetStage::Start);
    assert_eq!(t.dispatched[start_a].2, Freshness::Dirty);
    assert!(t.status.contains(&("a".to_string(), StatusLine::Compiling)));
    assert!(t.status.contains(&("b".to_string(), StatusLine::Compiling)));
    let lib_b = position(&t.finished, "b", TargetStage::Libraries);
    assert_eq!(t.finished[lib_b].2, Freshness::Dirty);
}

#[test]
fn independent_packages_all_finish() {
    let names = ["p1", "p2", "p3", "p4"];
    let pkgs: Vec<Package> = names.iter().map(|n| pkg(n, &[])).collect();
    let mut jq: JobQueue<TestJob> = JobQueue::new(resolve(&[]), set(names.iter().map(|n| pkg(n, &[])).collect()));
    for (i, p) in pkgs.iter().enumerate() {
        for s in &STAGES[..4] {
            let jobs = if *s == TargetStage::Libraries {
                vec![(TestJob { id: i as u32, ok: true }, Freshness::Dirty)]
            } else {
                Vec::new()
            };
            assert!(jq.enqueue(p, *s, jobs).is_ok());
        }
    }
    let (res, t) = drive(&mut jq);
    assert_eq!(res, Ok(()));
    assert_eq!(t.finished.len(), 16);
    assert!(jq.is_finished());
    assert_eq!(jq.active_jobs(), 0);
}

#[test]
fn failure_drain() {
    let names = ["p1", "p2", "p3"];
    let pkgs: Vec<Package> = names.iter().map(|n| pkg(n, &[])).collect();
    let mut jq: JobQueue<TestJob> = JobQueue::new(resolve(&[]), set(names.iter().map(|n| pkg(n, &[])).collect()));
    for (i, p) in pkgs.iter().enumerate() {
        for s in &STAGES[..4] {
            let jobs = if *s == TargetStage::Libraries {
                vec![(TestJob { id: i as u32 + 1, ok: i != 1 }, Freshness::Fresh)]
            } else {
                Vec::new()
            };
            assert!(jq.enqueue(p, *s, jobs).is_ok());
        }
    }
    let (res, t) = drive(&mut jq);
    assert_eq!(res, Err(2));
    assert_eq!(t.failed_lines, 1);
    assert_eq!(t.drained, 2);
    assert_eq!(jq.active_jobs(), 0);
    assert!(!t.dispatched.iter().any(|(_, s, _)| *s == TargetStage::Binaries));
}

#[test]
fn failure_with_nothing_else_in_flight() {
    let p = pkg("solo", &[]);
    let mut jq: JobQueue<TestJob> = JobQueue::new(resolve(&[]), set(vec![pkg("solo", &[])]));
    enqueue_all(&mut jq, &p, &STAGES[..2]);
    assert!(jq.enqueue(&p, TargetStage::Libraries, vec![(TestJob { id: 7, ok: false }, Freshness::Fresh)]).is_ok());
    let (res, t) = drive(&mut jq);
    assert_eq!(res, Err(7));
    assert_eq!(t.failed_lines, 0);
    assert_eq!(t.drained, 0);
}

#[test]
fn dev_dependency_only_at_test_stage() {
    let r = resolve(&[("a", &["d"])]);
    let ps = set(vec![pkg("a", &[("d", false)]), pkg("d", &[])]);
    let start = dependencies(&Key::new(pid("a"), TargetStage::Start), &r, &ps).ok().unwrap();
    assert!(start.is_empty());
    let tests = dependencies(&Key::new(pid("a"), TargetStage::Tests), &r, &ps).ok().unwrap();
    assert_eq!(tests.len(), 2);
    assert!(tests[0].same(&Key::new(pid("a"), TargetStage::Libraries)));
    assert!(tests[1].same(&Key::new(pid("d"), TargetStage::Libraries)));

    let a = pkg("a", &[("d", false)]);
    let mut jq: JobQueue<TestJob> = JobQueue::new(resolve(&[("a", &["d"])]), set(vec![pkg("a", &[("d", false)])]));
    enqueue_all(&mut jq, &a, &STAGES[..4]);
    match jq.enqueue(&a, TargetStage::Tests, Vec::new()) {
        Err(JobQueueError::Graph(GraphError::UnknownPackage(p))) => assert_eq!(p.name, "d"),
        _ => panic!("expected a graph error"),
    }
    let (res, t) = drive(&mut jq);
    assert_eq!(res, Ok(()));
    assert_eq!(t.finished.len(), 4);
}

#[test]
fn custom_build_before_library() {
    let a = pkg("a", &[]);
    let mut jq: JobQueue<TestJob> = JobQueue::new(resolve(&[]), set(vec![pkg("a", &[])]));
    assert!(jq.enqueue(&a, TargetStage::Start, Vec::new()).is_ok());
    assert!(jq.enqueue(&a, TargetStage::CustomBuild, vec![(TestJob { id: 1, ok: true }, Freshness::Dirty)]).is_ok());
    assert!(jq.enqueue(&a, TargetStage::Libraries, vec![(TestJob { id: 2, ok: true }, Freshness::Fresh)]).is_ok());
    let (res, t) = drive(&mut jq);
    assert_eq!(res, Ok(()));
    let cb = position(&t.finished, "a", TargetStage::CustomBuild);
    let lib = position(&t.dispatched, "a", TargetStage::Libraries);
    assert_eq!(t.finished[cb].2, Freshness::Dirty);
    assert_eq!(t.dispatched[lib].2, Freshness::Dirty);
    assert!(t.effective.contains(&(2, Freshness::Dirty)));
    assert!(event(&t, "finish", "a", TargetStage::CustomBuild) < event(&t, "dispatch", "a", TargetStage::Libraries));
}

#[test]
fn finish_joins_inherited_and_declared() {
    let a = pkg("a", &[]);
    let mut jq: JobQueue<TestJob> = JobQueue::new(resolve(&[]), set(vec![pkg("a", &[])]));
    enqueue_all(&mut jq, &a, &STAGES[..2]);
    let jobs = vec![
        (TestJob { id: 1, ok: true }, Freshness::Fresh),
        (TestJob { id: 2, ok: true }, Freshness::Dirty),
        (TestJob { id: 3, ok: true }, Freshness::Fresh),
    ];
    assert!(jq.enqueue(&a, TargetStage::Libraries, jobs).is_ok());
    let (res, t) = drive(&mut jq);
    assert_eq!(res, Ok(()));
    let lib = position(&t.finished, "a", TargetStage::Libraries);
    assert_eq!(t.finished[lib].2, Freshness::Dirty);
    assert!(t.effective.contains(&(1, Freshness::Fresh)));
    assert!(t.effective.contains(&(2, Freshness::Dirty)));
}

#[test]
fn empty_stage_keeps_inherited_freshness() {
    let up = pkg("up", &[]);
    let down = pkg("down", &[("up", true)]);
    let mut jq: JobQueue<TestJob> = JobQueue::new(resolve(&[("down", &["up"])]), set(vec![pkg("up", &[]), pkg("down", &[("up", true)])]));
    enqueue_all(&mut jq, &up, &STAGES[..2]);
    assert!(jq.enqueue(&up, TargetStage::Libraries, vec![(TestJob { id: 1, ok: true }, Freshness::Dirty)]).is_ok());
    enqueue_all(&mut jq, &down, &STAGES[..3]);
    let (res, t) = drive(&mut jq);
    assert_eq!(res, Ok(()));
    for s in &STAGES[..3] {
        let i = position(&t.finished, "down", *s);
        assert_eq!(t.finished[i].2, Freshness::Dirty);
    }
    let i = position(&t.finished, "up", TargetStage::Start);
    assert_eq!(t.finished[i].2, Freshness::Fresh);
}

#[test]
fn ignore_silences_only_start_line() {
    let a = pkg("a", &[]);
    let mut jq: JobQueue<TestJob> = JobQueue::new(resolve(&[]), set(vec![pkg("a", &[])]));
    jq.ignore(&a);
    jq.ignore(&a);
    assert!(jq.enqueue(&a, TargetStage::Start, vec![(TestJob { id: 1, ok: true }, Freshness::Dirty)]).is_ok());
    enqueue_all(&mut jq, &a, &STAGES[1..3]);
    let (res, t) = drive(&mut jq);
    assert_eq!(res, Ok(()));
    assert_eq!(t.finished.len(), 3);
    assert!(t.status.iter().all(|(_, s)| *s == StatusLine::Silent));
}

#[test]
fn start_line_shows_dirty_package() {
    let a = pkg("a", &[]);
    let mut jq: JobQueue<TestJob> = JobQueue::new(resolve(&[]), set(vec![pkg("a", &[])]));
    enqueue_all(&mut jq, &a, &STAGES[..1]);
    assert!(jq.enqueue(&a, TargetStage::Binaries, vec![(TestJob { id: 1, ok: true }, Freshness::Dirty)]).is_ok());
    let d = jq.next_dispatch().unwrap();
    assert_eq!(d.status, StatusLine::Compiling);
    assert!(d.synthetic);
    assert_eq!(d.fresh, Freshness::Fresh);
}

#[test]
fn duplicate_enqueue_is_refused() {
    let a = pkg("a", &[]);
    let mut jq: JobQueue<TestJob> = JobQueue::new(resolve(&[]), set(vec![pkg("a", &[])]));
    assert!(jq.enqueue(&a, TargetStage::Start, Vec::new()).is_ok());
    match jq.enqueue(&a, TargetStage::Start, Vec::new()) {
        Err(JobQueueError::DuplicateKey(k)) => assert!(k.same(&Key::new(pid("a"), TargetStage::Start))),
        _ => panic!("expected a duplicate key error"),
    }
}

#[test]
fn unknown_package_is_a_graph_error() {
    let ghost = pkg("ghost", &[]);
    let mut jq: JobQueue<TestJob> = JobQueue::new(resolve(&[]), set(vec![pkg("a", &[])]));
    match jq.enqueue(&ghost, TargetStage::Start, Vec::new()) {
        Err(JobQueueError::Graph(GraphError::UnknownPackage(p))) => assert_eq!(p.name, "ghost"),
        _ => panic!("expected a graph error"),
    }
}

#[test]
fn undeclared_dependency_is_a_graph_error() {
    let r = resolve(&[("a", &["b"])]);
    let ps = set(vec![pkg("a", &[]), pkg("b", &[])]);
    match dependencies(&Key::new(pid("a"), TargetStage::Start), &r, &ps) {
        Err(GraphError::MissingDeclaration(p)) => assert_eq!(p.name, "b"),
        _ => panic!("expected a missing declaration"),
    }
}

#[test]
fn self_edge_is_skipped() {
    let r = resolve(&[("a", &["a", "b"])]);
    let ps = set(vec![pkg("a", &[("b", true)]), pkg("b", &[])]);
    let start = dependencies(&Key::new(pid("a"), TargetStage::Start), &r, &ps).ok().unwrap();
    assert_eq!(start.len(), 1);
    assert!(start[0].same(&Key::new(pid("b"), TargetStage::Libraries)));
    assert!(self_edge(&r, &pid("a")));
    assert!(!self_edge(&r, &pid("b")));
    let bins = dependencies(&Key::new(pid("a"), TargetStage::Binaries), &r, &ps).ok().unwrap();
    assert_eq!(bins.len(), 1);
    assert!(bins[0].same(&Key::new(pid("a"), TargetStage::Libraries)));
}

#[test]
fn completion_for_unknown_key_changes_nothing() {
    let mut jq: JobQueue<TestJob> = JobQueue::new(resolve(&[]), set(vec![pkg("a", &[])]));
    assert_eq!(jq.complete(&Key::new(pid("a"), TargetStage::Start), Freshness::Fresh, true), Completion::Unknown);
    assert_eq!(jq.active_jobs(), 0);
}

#[test]
fn multiple_jobs_progress_then_finish() {
    let a = pkg("a", &[]);
    let mut jq: JobQueue<TestJob> = JobQueue::new(resolve(&[]), set(vec![pkg("a", &[])]));
    let jobs = vec![(TestJob { id: 1, ok: true }, Freshness::Fresh), (TestJob { id: 2, ok: true }, Freshness::Fresh)];
    assert!(jq.enqueue(&a, TargetStage::Start, jobs).is_ok());
    let d = jq.next_dispatch().unwrap();
    assert!(!d.synthetic);
    assert_eq!(jq.active_jobs(), 2);
    let k = Key::new(pid("a"), TargetStage::Start);
    assert_eq!(jq.complete(&k, Freshness::Fresh, true), Completion::Progress);
    assert_eq!(jq.complete(&k, Freshness::Dirty, true), Completion::Finished(Freshness::Dirty));
    assert!(jq.is_finished());
    assert_eq!(jq.active_jobs(), 0);
}

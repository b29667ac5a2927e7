use fisher::errors::ErrorKind;
use fisher::fs::{DirListing, FileEntry, FsEntry, FsRoot, FsSnapshot};
use fisher::hooks::{Hook, HooksBlueprint, HooksCollector, State};
use fisher::providers::{EventKind, JobOutput, ProviderDecl};

fn decl(name: &str, events: Vec<EventKind>) -> ProviderDecl {
    ProviderDecl { name: name.to_string(), events }
}

fn file(path: &str, mode: u32, decls: Vec<ProviderDecl>) -> FsEntry {
    FsEntry::File(FileEntry {
        path: path.to_string(),
        canonical: format!("/abs/{}", path),
        mode,
        decls,
    })
}

fn snapshot(base: &str, entries: Vec<FsEntry>) -> FsSnapshot {
    FsSnapshot {
        roots: vec![FsRoot {
            path: base.to_string(),
            listing: Some(DirListing { entries }),
        }],
    }
}

fn collect_names(collector: &mut HooksCollector) -> Vec<String> {
    let mut names = Vec::new();
    while let Some(item) = collector.next() {
        names.push(item.unwrap().name().to_string());
    }
    names
}

fn handle_names(hooks: &fisher::hooks::Hooks) -> Vec<String> {
    let mut names = Vec::new();
    let mut iter = hooks.names();
    while let Some(name) = iter.next() {
        names.push(name);
    }
    names
}

#[test]
fn test_collect() {
    let mut state = State::new();
    let base = snapshot(
        "dir",
        vec![
            file("dir/test-hook.sh", 0o755, vec![decl("Testing", vec![])]),
            file("dir/another-test.sh", 0o755, vec![decl("Testing", vec![])]),
            FsEntry::Dir(DirListing {
                entries: vec![file(
                    "dir/a-directory/hook-in-subdir.sh",
                    0o755,
                    vec![decl("Testing", vec![])],
                )],
            }),
            file("dir/non-executable.sh", 0o644, vec![decl("Testing", vec![])]),
        ],
    );

    let mut collector = HooksCollector::new(&base, "dir", false, &mut state).unwrap();
    let names = collect_names(&mut collector);
    assert_eq!(names.len(), 2);
    assert!(names.contains(&"test-hook.sh".to_string()));
    assert!(names.contains(&"another-test.sh".to_string()));

    let mut collector = HooksCollector::new(&base, "dir", true, &mut state).unwrap();
    let names = collect_names(&mut collector);
    assert_eq!(names.len(), 3);
    assert!(names.contains(&"test-hook.sh".to_string()));
    assert!(names.contains(&"another-test.sh".to_string()));
    assert!(names.contains(&"a-directory/hook-in-subdir.sh".to_string()));

    // A hook declaring an unimplemented provider stops the collection with
    // a ProviderNotFound error, after the earlier hooks were yielded.
    let broken = snapshot(
        "dir",
        vec![
            file("dir/test-hook.sh", 0o755, vec![decl("Testing", vec![])]),
            file(
                "dir/invalid.sh",
                0o755,
                vec![decl("InvalidHookDoNotUseThisNamePlease", vec![])],
            ),
        ],
    );
    let mut collector = HooksCollector::new(&broken, "dir", false, &mut state).unwrap();
    let mut error = None;
    while let Some(item) = collector.next() {
        if let Err(err) = item {
            error = Some(err);
            break;
        }
    }
    let error = error.unwrap();
    if let ErrorKind::ProviderNotFound(ref name) = *error.kind() {
        assert_eq!(name, "InvalidHookDoNotUseThisNamePlease");
    } else {
        panic!("Wrong error kind: {}", error.message());
    }
    // The sequence terminates after yielding the error.
    assert!(collector.next().is_none());

    // A missing collection root is an I/O error right away.
    match HooksCollector::new(&base, "elsewhere", false, &mut state) {
        Ok(_) => panic!("collecting a missing directory must fail"),
        Err(err) => assert!(matches!(*err.kind(), ErrorKind::IoError(_))),
    }
}

#[test]
fn test_hooks_status_hooks_collection() {
    let state = State::new();
    let base = snapshot(
        "dir",
        vec![
            file("dir/test.sh", 0o755, vec![decl("Testing", vec![])]),
            file(
                "dir/status1.sh",
                0o755,
                vec![decl(
                    "Status",
                    vec![EventKind::JobCompleted, EventKind::JobFailed],
                )],
            ),
            file(
                "dir/status2.sh",
                0o755,
                vec![decl("Status", vec![EventKind::JobFailed])],
            ),
        ],
    );

    let mut blueprint = HooksBlueprint::new(state);
    blueprint.collect_path("dir".to_string(), false, &base).unwrap();
    let hooks = blueprint.hooks();

    let completed = JobOutput { success: true, trigger_status_hooks: true };
    let mut jobs = hooks.jobs_after_output(completed).unwrap();
    let mut names = Vec::new();
    while let Some(job) = jobs.next() {
        names.push(job.hook_name().to_string());
    }
    assert_eq!(names, vec!["status1.sh".to_string()]);

    let failed = JobOutput { success: false, trigger_status_hooks: true };
    let mut jobs = hooks.jobs_after_output(failed).unwrap();
    let mut names = Vec::new();
    while let Some(job) = jobs.next() {
        names.push(job.hook_name().to_string());
    }
    names.sort();
    assert_eq!(
        names,
        vec!["status1.sh".to_string(), "status2.sh".to_string()]
    );

    // An output that must not re-trigger status hooks yields no jobs.
    let silent = JobOutput { success: false, trigger_status_hooks: false };
    assert!(hooks.jobs_after_output(silent).is_none());
}

#[test]
fn test_hooks_blueprint() {
    let mut state = State::new();
    let hook_c = Hook::load(
        "c.sh".to_string(),
        "/abs/other/c.sh".to_string(),
        &vec![decl("Testing", vec![])],
        &mut state,
    )
    .unwrap();

    let base = snapshot(
        "dir",
        vec![
            file("dir/a.sh", 0o755, vec![decl("Testing", vec![])]),
            file("dir/b.sh", 0o755, vec![decl("Testing", vec![])]),
        ],
    );

    let mut blueprint = HooksBlueprint::new(state);
    blueprint.insert(hook_c, &base).unwrap();
    blueprint.collect_path("dir".to_string(), false, &base).unwrap();

    // One handle, taken once: it shares the blueprint's snapshot slot and
    // reflects every later successful reload.
    let hooks = blueprint.hooks();
    let mut names = handle_names(&hooks);
    names.sort();
    assert_eq!(
        names,
        vec!["a.sh".to_string(), "b.sh".to_string(), "c.sh".to_string()]
    );

    // The directory changes: b.sh disappears, d.sh appears. An iterator
    // taken before the reload keeps walking the snapshot it captured.
    let mut stale_iter = hooks.names();
    let updated = snapshot(
        "dir",
        vec![
            file("dir/a.sh", 0o755, vec![decl("Testing", vec![])]),
            file("dir/d.sh", 0o755, vec![decl("Testing", vec![])]),
        ],
    );
    blueprint.reload(&updated).unwrap();
    let mut names = handle_names(&hooks);
    names.sort();
    assert_eq!(
        names,
        vec!["a.sh".to_string(), "c.sh".to_string(), "d.sh".to_string()]
    );
    let mut stale_names = Vec::new();
    while let Some(name) = stale_iter.next() {
        stale_names.push(name);
    }
    stale_names.sort();
    assert_eq!(
        stale_names,
        vec!["a.sh".to_string(), "b.sh".to_string(), "c.sh".to_string()]
    );

    // The whole directory disappears: the reload fails and the previously
    // published snapshot stays as it was, through the same handle.
    let gone = FsSnapshot {
        roots: vec![FsRoot { path: "dir".to_string(), listing: None }],
    };
    assert!(blueprint.reload(&gone).is_err());
    let mut names = handle_names(&hooks);
    names.sort();
    assert_eq!(
        names,
        vec!["a.sh".to_string(), "c.sh".to_string(), "d.sh".to_string()]
    );
}

#[test]
fn test_collect_invalid_config() {
    let mut state = State::new();
    let base = FsSnapshot {
        roots: vec![FsRoot {
            path: "dir".to_string(),
            listing: Some(DirListing {
                entries: vec![
                    file("dir/ok.sh", 0o755, vec![decl("Testing", vec![])]),
                    FsEntry::FileInvalid("missing events array".to_string()),
                ],
            }),
        }],
    };
    let mut collector = HooksCollector::new(&base, "dir", false, &mut state).unwrap();
    let first = collector.next().unwrap().unwrap();
    assert_eq!(first.name(), "ok.sh");
    match collector.next().unwrap() {
        Ok(_) => panic!("a malformed config must stop the collection"),
        Err(err) => match err.kind() {
            ErrorKind::InvalidInput(detail) => assert_eq!(detail, "missing events array"),
            _ => panic!("Wrong error kind: {}", err.message()),
        },
    }
    assert!(collector.next().is_none());
}

#[test]
fn test_get_by_name_last_wins() {
    let mut state = State::new();
    let first = Hook::load(
        "dup.sh".to_string(),
        "/abs/one/dup.sh".to_string(),
        &vec![decl("Testing", vec![])],
        &mut state,
    )
    .unwrap();
    let second = Hook::load(
        "dup.sh".to_string(),
        "/abs/two/dup.sh".to_string(),
        &vec![decl("Testing", vec![])],
        &mut state,
    )
    .unwrap();
    let second_id = second.id();

    let empty = FsSnapshot { roots: vec![] };
    let mut blueprint = HooksBlueprint::new(state);
    blueprint.insert(first, &empty).unwrap();
    blueprint.insert(second, &empty).unwrap();

    let hooks = blueprint.hooks();
    let found = hooks.get_by_name("dup.sh").unwrap();
    assert_eq!(found.exec_path(), "/abs/two/dup.sh");
    assert_eq!(found.id(), second_id);
    assert!(hooks.get_by_name("missing.sh").is_none());

    assert!(hooks.id_exists(second_id));
    assert!(!hooks.id_exists(424242));
}

#[test]
fn test_iteration_order_and_restart() {
    let mut state = State::new();
    let mut blueprint_hooks = Vec::new();
    for name in ["one.sh", "two.sh", "three.sh"] {
        blueprint_hooks.push(
            Hook::load(
                name.to_string(),
                format!("/abs/{}", name),
                &vec![decl("Testing", vec![])],
                &mut state,
            )
            .unwrap(),
        );
    }
    let empty = FsSnapshot { roots: vec![] };
    let mut blueprint = HooksBlueprint::new(state);
    for hook in blueprint_hooks {
        blueprint.insert(hook, &empty).unwrap();
    }
    let hooks = blueprint.hooks();
    assert_eq!(
        handle_names(&hooks),
        vec!["one.sh".to_string(), "two.sh".to_string(), "three.sh".to_string()]
    );

    // An iterator is one-shot, but a fresh one starts over.
    let mut iter = hooks.iter();
    while iter.next().is_some() {}
    assert!(iter.next().is_none());
    assert_eq!(handle_names(&hooks).len(), 3);
}

use gittre::clipboard::{copy, osc52_sequence, write_osc52, CopyStep, Route};
use gittre::event::{
    push_file_request, request_seq, retain_newest_generation, schedule, FileLoadKind, LoadRequest,
};
use gittre::git::scope::{
    base_candidates, build_diff, build_file_diff, commit_scope, content_sources, detect_base,
    file_content, file_count_fast, fork_base, fork_remotes, forkable_branch, rev_range, rev_scope,
    Blob, ForkBase, Oid, OwnCommit, Resolved, Scope, Side, MAX_CONTENT_FILE_SIZE,
};
use gittre::start::{fork_scope, initial_scope, Start};

fn oid(c: char) -> Oid {
    Oid {
        hex: c.to_string().repeat(40),
    }
}

fn names(list: &[&str]) -> Vec<String> {
    list.iter().map(|s| s.to_string()).collect()
}

fn file_request(seq: u64, path: &str, kind: FileLoadKind) -> LoadRequest {
    LoadRequest::File {
        seq,
        scope: Scope::Uncommitted,
        path: path.into(),
        old_path: None,
        kind,
    }
}

// ---- clipboard --------------------------------------------------------------

#[test]
fn plain_osc52_sequence() {
    assert_eq!(osc52_sequence("hello", false), "\x1b]52;c;aGVsbG8=\x07");
}

#[test]
fn copies_are_encoded_in_padded_base64() {
    for (text, encoded) in [
        ("", ""),
        ("f", "Zg=="),
        ("fo", "Zm8="),
        ("foo", "Zm9v"),
        ("foobar", "Zm9vYmFy"),
        ("~~~", "fn5+"),
        ("???", "Pz8/"),
        ("é", "w6k="),
    ] {
        assert_eq!(
            osc52_sequence(text, false),
            format!("\x1b]52;c;{encoded}\x07")
        );
    }
}

#[test]
fn tmux_wraps_and_escapes_the_sequence() {
    assert_eq!(
        osc52_sequence("hello", true),
        "\x1bPtmux;\x1b\x1b]52;c;aGVsbG8=\x07\x1b\\"
    );
}

#[test]
fn remote_copies_are_bounded() {
    let text = "x".repeat(100_000);
    assert!(write_osc52(&text, false).is_ok());
    let text = "x".repeat(100_001);
    assert_eq!(
        write_osc52(&text, false),
        Err("copy is 100001 bytes; remote limit is 100000".into())
    );
    // Bytes count, not characters.
    assert!(write_osc52(&"é".repeat(50_001), false).is_err());
}

#[test]
fn copying_falls_back_to_the_other_way() {
    assert!(matches!(copy(false, &[]), CopyStep::Try(Route::System)));
    assert!(matches!(copy(true, &[]), CopyStep::Try(Route::Osc52)));
    assert!(matches!(copy(true, &[Ok(())]), CopyStep::Done));
    assert!(matches!(
        copy(true, &[Err("a".into())]),
        CopyStep::Try(Route::System)
    ));
    assert!(matches!(
        copy(false, &[Err("a".into()), Ok(())]),
        CopyStep::Done
    ));
    match copy(true, &[Err("a".into()), Err("b".into())]) {
        CopyStep::Failed(e) => assert_eq!(e, "OSC 52: a; system clipboard: b"),
        _ => panic!("both ways failed"),
    }
    match copy(false, &[Err("a".into()), Err("b".into())]) {
        CopyStep::Failed(e) => assert_eq!(e, "system clipboard: a; OSC 52: b"),
        _ => panic!("both ways failed"),
    }
}

// ---- loader -----------------------------------------------------------------

#[test]
fn duplicate_file_requests_coalesce_by_generation_scope_and_path() {
    let mut requests = Vec::new();
    push_file_request(
        &mut requests,
        LoadRequest::File {
            seq: 4,
            scope: Scope::Uncommitted,
            path: "src/lib.rs".into(),
            old_path: None,
            kind: FileLoadKind::Stub {
                untracked_dir: false,
            },
        },
    );
    push_file_request(
        &mut requests,
        LoadRequest::File {
            seq: 4,
            scope: Scope::Uncommitted,
            path: "src/lib.rs".into(),
            old_path: None,
            kind: FileLoadKind::Stub {
                untracked_dir: true,
            },
        },
    );
    push_file_request(
        &mut requests,
        LoadRequest::File {
            seq: 5,
            scope: Scope::Uncommitted,
            path: "src/lib.rs".into(),
            old_path: Some("src/old.rs".into()),
            kind: FileLoadKind::FullContext,
        },
    );

    assert_eq!(requests.len(), 2);
    assert!(matches!(
        requests[0],
        LoadRequest::File {
            seq: 4,
            kind: FileLoadKind::Stub {
                untracked_dir: true
            },
            ..
        }
    ));
}

#[test]
fn newest_generation_discards_stale_work_of_every_kind() {
    let mut diff = Some(LoadRequest::Diff {
        seq: 3,
        scope: Scope::Uncommitted,
    });
    let mut counts = Some(LoadRequest::Counts { seq: 2 });
    let mut files = vec![
        LoadRequest::File {
            seq: 2,
            scope: Scope::Uncommitted,
            path: "old.rs".into(),
            old_path: None,
            kind: FileLoadKind::Stub {
                untracked_dir: false,
            },
        },
        LoadRequest::File {
            seq: 3,
            scope: Scope::Uncommitted,
            path: "current.rs".into(),
            old_path: None,
            kind: FileLoadKind::FullContext,
        },
    ];

    retain_newest_generation(&mut diff, &mut counts, &mut files);

    assert!(diff.is_some());
    assert!(counts.is_none());
    assert_eq!(files.len(), 1);
    assert_eq!(request_seq(&files[0]), 3);
}

#[test]
fn bursts_run_the_reload_first() {
    let work = schedule(vec![
        file_request(2, "old.rs", FileLoadKind::FullContext),
        LoadRequest::Counts { seq: 1 },
        LoadRequest::Diff {
            seq: 2,
            scope: Scope::Staged,
        },
        file_request(3, "a.rs", FileLoadKind::FullContext),
        LoadRequest::Diff {
            seq: 3,
            scope: Scope::Uncommitted,
        },
        file_request(3, "b.rs", FileLoadKind::FullContext),
    ]);
    assert_eq!(work.len(), 3);
    assert!(matches!(
        work[0],
        LoadRequest::Diff {
            seq: 3,
            scope: Scope::Uncommitted
        }
    ));
    assert!(matches!(&work[1], LoadRequest::File { path, .. } if path == "a.rs"));
    assert!(matches!(&work[2], LoadRequest::File { path, .. } if path == "b.rs"));
    assert!(schedule(vec![]).is_empty());
}

// ---- scopes -----------------------------------------------------------------

#[test]
fn every_scope_knows_its_two_sides() {
    let plan = build_diff(&Scope::Uncommitted);
    assert!(matches!(
        (&plan.old, &plan.new),
        (Side::HeadTree, Side::Workdir)
    ));
    assert!(plan.untracked && plan.untracked_content && plan.update_index);
    assert_eq!(plan.max_size, Some(MAX_CONTENT_FILE_SIZE));
    assert_eq!(plan.context, "diffing working tree vs HEAD");

    let plan = build_diff(&Scope::Branch {
        base: "main".into(),
    });
    assert!(matches!(&plan.old, Side::MergeBase(b) if b == "main"));
    assert!(matches!(plan.new, Side::Head));
    assert!(!plan.untracked);

    let plan = build_file_diff(&Scope::Staged, "a.txt");
    assert!(matches!(
        (&plan.old, &plan.new),
        (Side::HeadTree, Side::Index)
    ));
    assert_eq!(plan.pathspec.as_deref(), Some("a.txt"));
    assert_eq!(plan.max_size, None);

    let plan = file_count_fast(&Scope::Uncommitted);
    assert!(plan.untracked && !plan.untracked_content && !plan.renames);
    let plan = file_count_fast(&Scope::Commit {
        id: oid('a'),
        summary: String::new(),
    });
    assert!(plan.renames);
    assert!(matches!(plan.old, Side::ParentOf(_)));
}

fn blob(text: &str, commit: Option<Oid>) -> Option<Blob> {
    Some(Blob {
        content: text.as_bytes().to_vec(),
        commit,
    })
}

#[test]
fn full_files_come_from_the_new_side_first() {
    let scope = Scope::Commit {
        id: oid('a'),
        summary: String::new(),
    };
    assert_eq!(content_sources(&scope).len(), 2);
    let f = file_content(&scope, "x", &[blob("new", None), blob("old", None)]).unwrap();
    assert_eq!((f.content.as_str(), f.source.as_str()), ("new", "aaaaaaa"));
    let f = file_content(&scope, "x", &[None, blob("old", Some(oid('b')))]).unwrap();
    assert_eq!((f.content.as_str(), f.source.as_str()), ("old", "bbbbbbb"));
    assert_eq!(
        file_content(&scope, "x", &[None, None]).err().as_deref(),
        Some("no content found for 'x' in this scope")
    );
    let f = file_content(&Scope::Uncommitted, "x", &[blob("disk", None), None]).unwrap();
    assert_eq!(f.source, "working tree");
    let f = file_content(&Scope::Staged, "x", &[None, blob("head", None)]).unwrap();
    assert_eq!(f.source, "HEAD");
    let lossy = Some(Blob {
        content: vec![b'a', 0xff],
        commit: None,
    });
    let f = file_content(&Scope::Uncommitted, "x", &[lossy, None]).unwrap();
    assert_eq!(f.content, "a\u{fffd}");
}

#[test]
fn bases_are_every_branch_but_the_current_one() {
    assert_eq!(
        base_candidates(
            Some("feature"),
            &names(&["feature", "main"]),
            &names(&["origin/HEAD", "origin/main"])
        ),
        ["main", "origin/main"]
    );
    let locals = names(&["develop", "master"]);
    assert_eq!(
        detect_base(Some("x"), Some("origin/x"), &locals).as_deref(),
        Some("origin/x")
    );
    assert_eq!(
        detect_base(Some("x"), None, &locals).as_deref(),
        Some("master")
    );
    assert_eq!(
        detect_base(Some("master"), None, &locals).as_deref(),
        Some("develop")
    );
    assert_eq!(detect_base(None, None, &[]), None);
}

#[test]
fn forkable_needs_another_branch_that_is_not_a_remote_copy() {
    // Alone on the default branch: no fork point.
    assert_eq!(forkable_branch(Some("main"), &names(&["main"]), &[]), None);
    // A remote copy of the same branch does not count.
    assert_eq!(
        forkable_branch(
            Some("main"),
            &names(&["main"]),
            &names(&["origin/main", "origin/HEAD"])
        ),
        None
    );
    // A real second branch does.
    assert_eq!(
        forkable_branch(
            Some("feature"),
            &names(&["feature", "main"]),
            &names(&["origin/main"])
        )
        .as_deref(),
        Some("feature")
    );
    // A detached HEAD has none.
    assert_eq!(
        forkable_branch(None, &names(&["feature", "main"]), &[]),
        None
    );
}

#[test]
fn pushing_a_branch_keeps_its_fork_point() {
    let before = fork_remotes("feat/x", &names(&["origin/main"]));
    let after = fork_remotes("feat/x", &names(&["origin/main", "origin/feat/x", "fork/feat/x"]));
    assert_eq!(before, after);
    assert_eq!(before, ["origin/main"]);
}

#[test]
fn fork_scope_is_empty_for_branch_with_no_own_commits() {
    assert!(matches!(fork_base("feature", &[]), Ok(ForkBase::Head)));
}

#[test]
fn fork_scope_diffs_orphan_branch_against_empty_tree() {
    let own = [OwnCommit {
        id: oid('a'),
        parent: None,
    }];
    assert!(matches!(fork_base("orphan", &own), Ok(ForkBase::EmptyTree)));
}

#[test]
fn fork_scope_reviews_all_branch_commits() {
    let own = [
        OwnCommit {
            id: oid('c'),
            parent: Some(oid('b')),
        },
        OwnCommit {
            id: oid('b'),
            parent: Some(oid('a')),
        },
    ];
    match fork_base("feature", &own) {
        Ok(ForkBase::Commit(id)) => assert_eq!(id.short(), "aaaaaaa"),
        other => panic!("{other:?}"),
    }
    let many: Vec<OwnCommit> = (0..10_001)
        .map(|_| OwnCommit {
            id: oid('a'),
            parent: None,
        })
        .collect();
    assert_eq!(
        fork_base("feature", &many).err().as_deref(),
        Some("'feature' has more than 10000 commits of its own; pick a base with -b <base>")
    );
}

fn found(c: char) -> Resolved {
    Resolved::Commit {
        id: oid(c),
        summary: Some("subject".into()),
    }
}

#[test]
fn revisions_name_commits_and_ranges() {
    assert!(rev_range("HEAD~2").is_none());
    let r = rev_range("a..b").unwrap();
    assert_eq!((r.from.as_str(), r.to.as_str(), r.merge_base), ("a", "b", false));
    let r = rev_range("...b").unwrap();
    assert_eq!((r.from.as_str(), r.to.as_str(), r.merge_base), ("HEAD", "b", true));

    match rev_scope("x", &found('a'), &found('b'), None) {
        Ok(Scope::Commit { id, summary }) => {
            assert_eq!(id.short(), "aaaaaaa");
            assert_eq!(summary, "subject");
        }
        other => panic!("{other:?}"),
    }
    match rev_scope("x..y", &found('a'), &found('b'), None) {
        Ok(Scope::Range { from, to }) => {
            assert_eq!(from.short(), "aaaaaaa");
            assert_eq!(to.short(), "bbbbbbb");
        }
        other => panic!("{other:?}"),
    }
    match rev_scope("x...y", &found('a'), &found('b'), Some(&oid('c'))) {
        Ok(Scope::Range { from, .. }) => assert_eq!(from.short(), "ccccccc"),
        other => panic!("{other:?}"),
    }
    assert_eq!(
        rev_scope("x...y", &found('a'), &found('b'), None).err().as_deref(),
        Some("no merge base for '...' range")
    );
    assert_eq!(
        rev_scope("x..", &found('a'), &Resolved::Unknown, None).err().as_deref(),
        Some("unknown revision 'HEAD'")
    );
    assert_eq!(
        commit_scope("v1", &Resolved::NotACommit).err().as_deref(),
        Some("'v1' is not a commit")
    );
}

#[test]
fn the_command_line_names_at_most_one_scope() {
    assert!(matches!(
        initial_scope(false, false, None, None),
        Ok(Start::Picker)
    ));
    assert!(matches!(
        initial_scope(true, false, None, None),
        Ok(Start::Open(Scope::Uncommitted))
    ));
    assert!(matches!(
        initial_scope(false, true, None, None),
        Ok(Start::Open(Scope::Staged))
    ));
    assert!(matches!(
        initial_scope(false, false, Some(""), None),
        Ok(Start::Fork)
    ));
    assert!(matches!(
        initial_scope(false, false, Some("main"), None),
        Ok(Start::Open(Scope::Branch { base })) if base == "main"
    ));
    assert!(matches!(
        initial_scope(false, false, None, Some("a..b")),
        Ok(Start::Revision(r)) if r == "a..b"
    ));
    assert_eq!(
        initial_scope(true, false, None, Some("a")).err().as_deref(),
        Some("pick at most one of: REV, --uncommitted, --staged, --branch")
    );
    assert!(matches!(
        fork_scope(Some("feature".into())),
        Ok(Scope::BranchFork { branch }) if branch == "feature"
    ));
    assert_eq!(
        fork_scope(None).err().as_deref(),
        Some("no fork point found: pass a base with --branch <BASE>")
    );
}

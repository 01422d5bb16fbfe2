use compose::engine::RedactError;
use compose::sync::{
    do_main, keep_in_prune, process_entries, prune_entries, ComposeConfig, ComposeOpts, FsFile,
    SyncError,
};

fn b(s: &str) -> Vec<u8> {
    s.as_bytes().to_vec()
}

fn names(ls: &[&str]) -> Vec<Vec<u8>> {
    ls.iter().map(|l| b(l)).collect()
}

fn file(path: &[&str], content: &str) -> FsFile {
    FsFile { path: names(path), content: b(content) }
}

fn config(entries: &[&str], no_copy: &[&str], no_remove: &[&str], tools: &[&str]) -> ComposeConfig {
    ComposeConfig {
        entries: names(entries),
        no_copy: names(no_copy),
        no_remove: names(no_remove),
        workspace_tools: names(tools),
    }
}

fn opts(no_process: bool, spare: &[&str], add_tools: &[&str]) -> ComposeOpts {
    ComposeOpts { no_process, spare: names(spare), add_tools: names(add_tools) }
}

fn find<'a>(files: &'a [FsFile], path: &[&str]) -> Option<&'a FsFile> {
    let p = names(path);
    files.iter().find(|f| f.path == p)
}

#[test]
fn synchronizer_scenario() {
    // source tree: a.rs, b.txt, and an excluded secret/ directory
    let src = vec![
        file(&["tree", "a.rs"], "fn a() {\n    hide(); // compose::private\n}\n"),
        file(&["tree", "b.txt"], "plain text"),
        file(&["tree", "secret", "key.txt"], "SECRET-REDACTED"),
    ];
    // destination initially: a stale copy of a.rs and a stale.rs
    let dst = vec![
        file(&["tree", "a.rs"], "old contents"),
        file(&["stale.rs"], "left over"),
    ];
    let cfg = config(&["tree"], &["secret"], &[], &[]);
    let o = opts(false, &[], &[]);
    let out = do_main(&cfg, &o, &src, &dst).unwrap();

    let a = find(&out.files, &["tree", "a.rs"]).unwrap();
    assert_eq!(
        String::from_utf8(a.content.clone()).unwrap(),
        "fn a() {\n    // TODO: your code here.\n}\n"
    );
    let bt = find(&out.files, &["tree", "b.txt"]).unwrap();
    assert_eq!(bt.content, b("plain text"));
    assert!(find(&out.files, &["tree", "secret", "key.txt"]).is_none());
    assert!(find(&out.files, &["stale.rs"]).is_none());
    assert_eq!(out.files.len(), 2);
}

#[test]
fn pruning_scenario() {
    // spare set {a.rs}; destination top level {a.rs, old_dir/}
    let dst = vec![
        file(&["a.rs"], "keep me"),
        file(&["old_dir", "f1.txt"], "x"),
        file(&["old_dir", "sub", "f2.txt"], "y"),
    ];
    let out = prune_entries(&dst, &names(&["a.rs"]));
    assert_eq!(out.len(), 1);
    assert_eq!(out[0].path, names(&["a.rs"]));
    assert_eq!(out[0].content, b("keep me"));
}

#[test]
fn keep_in_prune_spares_entries_no_remove_and_flags() {
    let cfg = config(&["a"], &[], &["keep"], &[]);
    let o = opts(false, &["extra"], &[]);
    assert!(keep_in_prune(&b("a"), &cfg, &o));
    assert!(keep_in_prune(&b("keep"), &cfg, &o));
    assert!(keep_in_prune(&b("extra"), &cfg, &o));
    assert!(!keep_in_prune(&b("stale"), &cfg, &o));
}

#[test]
fn missing_entry_fails() {
    let src = vec![file(&["present", "x.txt"], "x")];
    let r = process_entries(&src, &names(&["present", "absent"]), &names(&[]));
    match r {
        Err(SyncError::MissingEntry { entry }) => assert_eq!(entry, b("absent")),
        _ => panic!("expected a missing-entry failure"),
    }
}

#[test]
fn exclusion_applies_below_entries_only() {
    let src = vec![
        file(&["pkg", "keep.txt"], "k"),
        file(&["pkg", "skip", "me.txt"], "m"),
        file(&["pkg", "deep", "skip", "me2.txt"], "m2"),
    ];
    let out = process_entries(&src, &names(&["pkg"]), &names(&["skip"])).unwrap();
    assert_eq!(out.len(), 1);
    assert_eq!(out[0].path, names(&["pkg", "keep.txt"]));
}

#[test]
fn entry_named_file_copied_even_if_excluded() {
    // exclusion is checked below an entry, never on the entry itself
    let src = vec![file(&["skip"], "top-level file")];
    let out = process_entries(&src, &names(&["skip"]), &names(&["skip"])).unwrap();
    assert_eq!(out.len(), 1);
}

#[test]
fn only_rs_files_are_redacted() {
    let src = vec![
        file(&["p", "a.rs"], "x // compose::private\n"),
        file(&["p", "a.txt"], "x // compose::private\n"),
    ];
    let out = process_entries(&src, &names(&["p"]), &names(&[])).unwrap();
    let rs = find(&out, &["p", "a.rs"]).unwrap();
    let txt = find(&out, &["p", "a.txt"]).unwrap();
    assert_eq!(rs.content, b("// TODO: your code here.\n"));
    assert_eq!(txt.content, b("x // compose::private\n"));
}

#[test]
fn redaction_failure_names_file_and_line() {
    let src = vec![file(&["p", "bad.rs"], "ok\n// compose::end_private\n")];
    let cfg = config(&["p"], &[], &[], &[]);
    let o = opts(false, &[], &[]);
    match do_main(&cfg, &o, &src, &vec![]) {
        Err(SyncError::Redact { path, error }) => {
            assert_eq!(path, names(&["p", "bad.rs"]));
            assert_eq!(error, RedactError::UnpairedEnd { line: 2 });
        },
        _ => panic!("expected a redaction failure"),
    }
}

#[test]
fn no_process_skips_copying_but_still_prunes() {
    let src = vec![file(&["p", "a.rs"], "x // compose::private\n")];
    let dst = vec![file(&["p", "old.txt"], "old"), file(&["gone", "x"], "x")];
    let cfg = config(&["p"], &[], &[], &[]);
    let o = opts(true, &[], &[]);
    let out = do_main(&cfg, &o, &src, &dst).unwrap();
    assert_eq!(out.files.len(), 1);
    assert_eq!(out.files[0].path, names(&["p", "old.txt"]));
    assert_eq!(out.files[0].content, b("old"));
}

#[test]
fn copied_file_overwrites_old_destination_file() {
    let src = vec![file(&["p", "a.txt"], "new")];
    let dst = vec![file(&["p", "a.txt"], "old")];
    let cfg = config(&["p"], &[], &[], &[]);
    let o = opts(false, &[], &[]);
    let out = do_main(&cfg, &o, &src, &dst).unwrap();
    assert_eq!(out.files.len(), 1);
    assert_eq!(out.files[0].content, b("new"));
}

#[test]
fn kept_destination_files_survive_inside_spared_entries() {
    let src = vec![file(&["p", "a.txt"], "new")];
    let dst = vec![file(&["p", "leftover.txt"], "still here")];
    let cfg = config(&["p"], &[], &[], &[]);
    let o = opts(false, &[], &[]);
    let out = do_main(&cfg, &o, &src, &dst).unwrap();
    assert!(find(&out.files, &["p", "leftover.txt"]).is_some());
    assert!(find(&out.files, &["p", "a.txt"]).is_some());
}

#[test]
fn tasks_are_entries_with_a_package_descriptor() {
    let src = vec![
        file(&["with_pkg", "Cargo.toml"], "[package]"),
        file(&["with_pkg", "src.rs"], "code\n"),
        file(&["plain", "data.txt"], "d"),
    ];
    let cfg = config(&["with_pkg", "plain"], &[], &[], &["tool_a"]);
    let o = opts(false, &[], &["tool_b"]);
    let out = do_main(&cfg, &o, &src, &vec![]).unwrap();
    assert_eq!(out.tasks, names(&["with_pkg"]));
    assert_eq!(out.tools, names(&["tool_a", "tool_b"]));
}

#[test]
fn never_remove_names_survive_pruning() {
    let src = vec![file(&["p", "a.txt"], "new")];
    let dst = vec![file(&["docs", "readme.txt"], "keep"), file(&["junk", "x"], "drop")];
    let cfg = config(&["p"], &[], &["docs"], &[]);
    let o = opts(false, &[], &[]);
    let out = do_main(&cfg, &o, &src, &dst).unwrap();
    assert!(find(&out.files, &["docs", "readme.txt"]).is_some());
    assert!(find(&out.files, &["junk", "x"]).is_none());
}

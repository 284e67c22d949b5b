//! The `--restrict-to-workdir` check, driven against a small simulated disk.

use std::collections::HashMap;

use codex_tools_mcp::guard::validate_patch_paths_within_root;
use codex_tools_mcp::walk::{ensure_path_stays_within_root, AbsPath, ProbeError, WalkEvent, WalkStep};

enum Entry {
    Dir,
    File,
    Link(Vec<String>),
}

struct Disk {
    entries: HashMap<Vec<String>, Entry>,
}

fn path(p: &str) -> Vec<String> {
    p.split('/').filter(|s| !s.is_empty()).map(|s| s.to_string()).collect()
}

fn not_found() -> ProbeError {
    ProbeError::NotFound("No such file or directory (os error 2)".to_string())
}

impl Disk {
    fn new(entries: Vec<(&str, Entry)>) -> Disk {
        Disk { entries: entries.into_iter().map(|(p, e)| (path(p), e)).collect() }
    }

    fn canonicalize(&self, p: &[String], depth: usize) -> Result<Vec<String>, ProbeError> {
        if depth > 16 {
            return Err(ProbeError::Other("Too many levels of symbolic links (os error 40)".to_string()));
        }
        let mut cur: Vec<String> = Vec::new();
        for seg in p {
            cur.push(seg.clone());
            match self.entries.get(&cur) {
                None => return Err(not_found()),
                Some(Entry::Link(target)) => cur = self.canonicalize(target, depth + 1)?,
                Some(_) => {}
            }
        }
        Ok(cur)
    }

    fn inspect(&self, p: &[String]) -> Result<bool, ProbeError> {
        let (last, parent) = p.split_last().expect("not the root");
        let mut at = self.canonicalize(parent, 0)?;
        at.push(last.clone());
        match self.entries.get(&at) {
            None => Err(not_found()),
            Some(Entry::Link(_)) => Ok(true),
            Some(_) => Ok(false),
        }
    }

    fn answer(&self, step: &WalkStep) -> WalkEvent {
        match step {
            WalkStep::Inspect(p) => WalkEvent::Inspected(self.inspect(&p.segments)),
            WalkStep::Resolve(p) => WalkEvent::Resolved(
                self.canonicalize(&p.segments, 0).map(|segments| AbsPath { segments }),
            ),
            WalkStep::Done(_) => unreachable!(),
        }
    }

    fn walk(&self, root: &str, names: &[&str], allow: bool) -> Result<(), String> {
        let names: Vec<String> = names.iter().map(|n| n.to_string()).collect();
        let (mut walk, mut step) = ensure_path_stays_within_root(&AbsPath { segments: path(root) }, &names, allow);
        loop {
            if let WalkStep::Done(verdict) = step {
                return verdict;
            }
            if let WalkStep::Inspect(p) | WalkStep::Resolve(p) = &step {
                assert!(p.segments.starts_with(&path(root)) && p.segments.len() > path(root).len());
            }
            let event = self.answer(&step);
            step = walk.feed(event);
        }
    }

    fn check(&self, patch: &str, root: &str) -> Result<(), String> {
        let (mut guard, mut step) = validate_patch_paths_within_root(patch, &AbsPath { segments: path(root) });
        loop {
            if let WalkStep::Done(verdict) = step {
                assert!(guard.is_finished());
                return verdict;
            }
            let event = self.answer(&step);
            step = guard.feed(event);
        }
    }
}

fn workdir_with_link_outside() -> Disk {
    Disk::new(vec![
        ("/tmp", Entry::Dir),
        ("/tmp/work", Entry::Dir),
        ("/tmp/outside", Entry::Dir),
        ("/tmp/outside/target.txt", Entry::File),
        ("/tmp/work/source.txt", Entry::File),
        ("/tmp/work/link", Entry::Link(path("/tmp/outside"))),
    ])
}

fn patch_of(body: &str) -> String {
    format!("*** Begin Patch\n{body}*** End Patch\n")
}

#[test]
fn restrict_to_workdir_still_allows_in_tree_patch_paths() {
    let disk = workdir_with_link_outside();
    let patch = patch_of("*** Add File: nested/ok.txt\n+safe write\n");
    assert_eq!(disk.check(&patch, "/tmp/work"), Ok(()));
}

#[test]
fn restrict_to_workdir_blocks_parent_directory_escape() {
    let disk = workdir_with_link_outside();
    let patch = patch_of("*** Add File: ../escape.txt\n+should be blocked\n");
    assert_eq!(
        disk.check(&patch, "/tmp/work"),
        Err("Patch path escapes workdir: ../escape.txt (line 2)".to_string())
    );
}

#[test]
fn restrict_to_workdir_blocks_symlink_escape() {
    let disk = workdir_with_link_outside();
    let patch = patch_of("*** Add File: link/escape.txt\n+should be blocked\n");
    assert_eq!(
        disk.check(&patch, "/tmp/work"),
        Err("Patch path escapes workdir via symlink: link/escape.txt (line 2)".to_string())
    );
}

#[test]
fn restrict_to_workdir_allows_delete_of_broken_symlink() {
    let disk = Disk::new(vec![
        ("/tmp", Entry::Dir),
        ("/tmp/work", Entry::Dir),
        ("/tmp/work/dead", Entry::Link(path("/tmp/work/missing-target"))),
    ]);
    let patch = patch_of("*** Delete File: dead\n");
    assert_eq!(disk.check(&patch, "/tmp/work"), Ok(()));
}

#[test]
fn restrict_to_workdir_blocks_update_through_symlink_escape() {
    let disk = workdir_with_link_outside();
    let patch = patch_of("*** Update File: link/target.txt\n@@\n-old value\n+new value\n");
    assert_eq!(
        disk.check(&patch, "/tmp/work"),
        Err("Patch path escapes workdir via symlink: link/target.txt (line 2)".to_string())
    );
}

#[test]
fn restrict_to_workdir_blocks_move_destination_through_symlink_escape() {
    let disk = workdir_with_link_outside();
    let patch = patch_of("*** Update File: source.txt\n*** Move to: link/moved.txt\n@@\n-hello\n+hello moved\n");
    assert_eq!(
        disk.check(&patch, "/tmp/work"),
        Err("Patch path escapes workdir via symlink: link/moved.txt (line 3)".to_string())
    );
}

#[test]
fn restrict_to_workdir_allows_delete_of_nonbroken_symlink() {
    let disk = workdir_with_link_outside();
    let patch = patch_of("*** Delete File: link\n");
    assert_eq!(disk.check(&patch, "/tmp/work"), Ok(()));
}

#[test]
fn writing_through_a_link_is_refused_even_for_delete_of_an_entry_below_it() {
    let disk = workdir_with_link_outside();
    let patch = patch_of("*** Delete File: link/target.txt\n");
    assert_eq!(
        disk.check(&patch, "/tmp/work"),
        Err("Patch path escapes workdir via symlink: link/target.txt (line 2)".to_string())
    );
}

#[test]
fn first_failing_path_is_reported() {
    let disk = workdir_with_link_outside();
    let patch = patch_of("*** Add File: fine.txt\n+x\n*** Add File: /abs.txt\n+y\n*** Add File: ../up.txt\n");
    assert_eq!(
        disk.check(&patch, "/tmp/work"),
        Err("Absolute patch paths are not allowed: /abs.txt (line 4)".to_string())
    );
}

#[test]
fn a_patch_without_paths_passes() {
    let disk = workdir_with_link_outside();
    assert_eq!(disk.check("*** Begin Patch\n*** End Patch\n", "/tmp/work"), Ok(()));
}

#[test]
fn walk_asks_entry_by_entry_inside_the_root() {
    let root = AbsPath { segments: path("/tmp/work") };
    let (mut walk, step) = ensure_path_stays_within_root(&root, &path("a/b"), false);
    assert_eq!(step, WalkStep::Inspect(AbsPath { segments: path("/tmp/work/a") }));
    let step = walk.feed(WalkEvent::Inspected(Ok(false)));
    assert_eq!(step, WalkStep::Resolve(AbsPath { segments: path("/tmp/work/a") }));
    let step = walk.feed(WalkEvent::Resolved(Ok(AbsPath { segments: path("/tmp/work/real-a") })));
    assert_eq!(step, WalkStep::Inspect(AbsPath { segments: path("/tmp/work/real-a/b") }));
    let step = walk.feed(WalkEvent::Inspected(Err(not_found())));
    assert_eq!(step, WalkStep::Done(Ok(())));
    assert!(walk.is_finished());
}

#[test]
fn walk_reports_disk_errors() {
    let root = AbsPath { segments: path("/w") };
    let (mut walk, _) = ensure_path_stays_within_root(&root, &path("a"), false);
    let step = walk.feed(WalkEvent::Inspected(Err(ProbeError::Other("Permission denied (os error 13)".to_string()))));
    assert_eq!(step, WalkStep::Done(Err("Failed to inspect patch path: Permission denied (os error 13)".to_string())));

    let (mut walk, _) = ensure_path_stays_within_root(&root, &path("a"), false);
    walk.feed(WalkEvent::Inspected(Ok(true)));
    let step = walk.feed(WalkEvent::Resolved(Err(not_found())));
    assert_eq!(
        step,
        WalkStep::Done(Err("Failed to resolve patch path: No such file or directory (os error 2)".to_string()))
    );
}

#[test]
fn walk_ignores_an_answer_to_another_question() {
    let root = AbsPath { segments: path("/w") };
    let (mut walk, first) = ensure_path_stays_within_root(&root, &path("a"), false);
    let again = walk.feed(WalkEvent::Resolved(Ok(AbsPath { segments: path("/elsewhere") })));
    assert_eq!(again, first);
}

#[test]
fn walk_refuses_names_that_are_not_plain() {
    let root = AbsPath { segments: path("/tmp/w") };
    for name in ["..", ".", "", "a/b", "/x"] {
        let names = vec![name.to_string(), "x".to_string()];
        let (walk, step) = ensure_path_stays_within_root(&root, &names, false);
        assert_eq!(step, WalkStep::Done(Err("Patch path contains unsupported component".to_string())));
        assert!(walk.is_finished());
    }
    let names = vec!["a".to_string(), "..".to_string()];
    let (mut walk, step) = ensure_path_stays_within_root(&root, &names, false);
    assert_eq!(step, WalkStep::Inspect(AbsPath { segments: path("/tmp/w/a") }));
    assert_eq!(walk.feed(WalkEvent::Inspected(Err(not_found()))), WalkStep::Done(Err("Patch path contains unsupported component".to_string())));
}

#[test]
fn delete_allowance_only_accepts_more() {
    let disk = Disk::new(vec![
        ("/tmp", Entry::Dir),
        ("/tmp/work", Entry::Dir),
        ("/tmp/outside", Entry::Dir),
        ("/tmp/work/link", Entry::Link(path("/tmp/outside"))),
        ("/tmp/work/broken", Entry::Link(path("/tmp/nowhere"))),
        ("/tmp/work/file.txt", Entry::File),
    ]);
    for names in [vec!["link"], vec!["broken"], vec!["file.txt"], vec!["link", "x"], vec!["new", "y"]] {
        let with = disk.walk("/tmp/work", &names, true);
        let without = disk.walk("/tmp/work", &names, false);
        if with.is_err() {
            assert_eq!(with, without);
        }
    }
    assert_eq!(disk.walk("/tmp/work", &["link"], true), Ok(()));
    assert_eq!(
        disk.walk("/tmp/work", &["link"], false),
        Err("Patch path escapes workdir via symlink".to_string())
    );
    assert_eq!(
        disk.walk("/tmp/work", &["link", "x"], true),
        Err("Patch path escapes workdir via symlink".to_string())
    );
}

#[test]
fn a_patch_is_checked_in_parts() {
    let disk = workdir_with_link_outside();
    let first = "*** Begin Patch\n*** Add File: ok.txt\n+x\n";
    let bad = "*** Add File: link/escape.txt\n+y\n*** End Patch\n";
    let good = "*** Update File: source.txt\n*** End Patch\n";
    assert_eq!(disk.check(first, "/tmp/work"), Ok(()));
    assert_eq!(disk.check(good, "/tmp/work"), Ok(()));
    assert_eq!(disk.check(&format!("{first}{good}"), "/tmp/work"), Ok(()));
    assert!(disk.check(bad, "/tmp/work").is_err());
    assert!(disk.check(&format!("{first}{bad}"), "/tmp/work").is_err());
    let failing_first = "*** Add File: ../up.txt\n";
    assert_eq!(
        disk.check(&format!("{failing_first}{good}"), "/tmp/work"),
        disk.check(failing_first, "/tmp/work")
    );
}

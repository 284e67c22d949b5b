use codex_tools_mcp::guard::{patch_path_targets, PathKind};
use codex_tools_mcp::paths::{normalize_components, normalize_relative_path, validate_patch_path, PathPart};
use codex_tools_mcp::text::{
    decimal_string, is_blank, is_whitespace_char, same_text, split_lines, strip_prefix, to_chars,
    trim_trailing_newlines,
};

fn names(v: &[&str]) -> Vec<String> {
    v.iter().map(|s| s.to_string()).collect()
}

#[test]
fn whitespace_matches_std_for_every_char() {
    for code in 0u32..=0x10FFFF {
        if let Some(c) = char::from_u32(code) {
            assert_eq!(is_whitespace_char(c), c.is_whitespace(), "char {code:#x}");
        }
    }
}

#[test]
fn blank_lines_are_those_that_trim_to_nothing() {
    for s in ["", " ", "\t\r\n", "\u{3000}\u{a0}", " x ", "abc", "\u{200b}"] {
        assert_eq!(is_blank(s), s.trim().is_empty(), "{s:?}");
    }
}

#[test]
fn lines_split_like_std() {
    let samples = [
        "",
        "a",
        "a\n",
        "a\nb",
        "a\r\nb\r\n",
        "\n\n",
        "a\rb\n",
        "x\r",
        "*** Begin Patch\n*** Add File: hello.txt\n+hello world!\n*** End Patch\n",
    ];
    for s in samples {
        let got: Vec<String> = split_lines(&to_chars(s)).iter().map(|l| l.iter().collect()).collect();
        let want: Vec<String> = s.lines().map(|l| l.to_string()).collect();
        assert_eq!(got, want, "{s:?}");
    }
}

#[test]
fn trailing_line_feeds_are_trimmed() {
    let got: String = trim_trailing_newlines(&to_chars("done\n\n")).iter().collect();
    assert_eq!(got, "done");
    let got: String = trim_trailing_newlines(&to_chars("a\nb\r\n")).iter().collect();
    assert_eq!(got, "a\nb\r");
    let got: String = trim_trailing_newlines(&to_chars("\n\n")).iter().collect();
    assert_eq!(got, "");
}

#[test]
fn prefixes_are_stripped() {
    let rest = strip_prefix(&to_chars("*** Move to: x/y"), &to_chars("*** Move to: ")).unwrap();
    assert_eq!(rest.iter().collect::<String>(), "x/y");
    assert!(strip_prefix(&to_chars("*** Move"), &to_chars("*** Move to: ")).is_none());
    assert!(strip_prefix(&to_chars("+*** Move to: x"), &to_chars("*** Move to: ")).is_none());
}

#[test]
fn decimals_and_text_equality() {
    assert_eq!(decimal_string(0), "0");
    assert_eq!(decimal_string(7), "7");
    assert_eq!(decimal_string(10), "10");
    assert_eq!(decimal_string(1234567890), "1234567890");
    assert_eq!(decimal_string(u64::MAX), u64::MAX.to_string());
    assert!(same_text("ping", "ping"));
    assert!(!same_text("ping", "pong"));
}

#[test]
fn normalization_drops_dots_and_pops_parents() {
    assert_eq!(normalize_relative_path("a/./b"), Some(names(&["a", "b"])));
    assert_eq!(normalize_relative_path("./a/b/"), Some(names(&["a", "b"])));
    assert_eq!(normalize_relative_path("a/b/../c"), Some(names(&["a", "c"])));
    assert_eq!(normalize_relative_path("a/.."), Some(Vec::<String>::new()));
    assert_eq!(normalize_relative_path("../escape.txt"), None);
    assert_eq!(normalize_relative_path("a/../../b"), None);
    assert_eq!(normalize_relative_path("/etc/passwd"), None);
}

#[test]
fn normalization_of_components() {
    let parts = vec![
        PathPart::CurDir,
        PathPart::Normal("x".to_string()),
        PathPart::ParentDir,
        PathPart::Normal("y".to_string()),
    ];
    assert_eq!(normalize_components(&parts), Some(names(&["y"])));
    assert_eq!(normalize_components(&[PathPart::ParentDir]), None);
    assert_eq!(normalize_components(&[PathPart::RootDir, PathPart::Normal("a".to_string())]), None);
    assert_eq!(normalize_components(&[PathPart::Prefix]), None);
}

#[test]
fn patch_paths_are_checked_lexically() {
    assert_eq!(validate_patch_path(""), Err("Patch path cannot be empty".to_string()));
    assert_eq!(
        validate_patch_path("/etc/passwd"),
        Err("Absolute patch paths are not allowed: /etc/passwd".to_string())
    );
    assert_eq!(
        validate_patch_path("../escape.txt"),
        Err("Patch path escapes workdir: ../escape.txt".to_string())
    );
    assert_eq!(
        validate_patch_path("a/.."),
        Err("Patch path cannot resolve to workdir root: a/..".to_string())
    );
    assert_eq!(validate_patch_path("nested/ok.txt"), Ok(names(&["nested", "ok.txt"])));
}

#[test]
fn patch_lines_name_their_paths() {
    let patch = "*** Begin Patch\n*** Add File: a.txt\n+x\n*** Update File: src/app.py\n*** Move to: src/main.py\n@@\n-a\n+b\n*** Delete File: old.txt\n*** End Patch\n";
    let targets = patch_path_targets(patch);
    let got: Vec<(usize, String, PathKind)> = targets.into_iter().map(|t| (t.line, t.path, t.kind)).collect();
    assert_eq!(
        got,
        vec![
            (2, "a.txt".to_string(), PathKind::WriteLike),
            (4, "src/app.py".to_string(), PathKind::WriteLike),
            (5, "src/main.py".to_string(), PathKind::WriteLike),
            (9, "old.txt".to_string(), PathKind::Delete),
        ]
    );
}

#[test]
fn normalizing_twice_changes_nothing() {
    for text in ["a/./b/../c", "./x/y/z/..", "q", "a/b/c/../../d"] {
        let once = normalize_relative_path(text).expect("stays inside");
        let parts: Vec<PathPart> = once.iter().map(|n| PathPart::Normal(n.clone())).collect();
        assert_eq!(normalize_components(&parts), Some(once.clone()));
        assert_eq!(normalize_relative_path(&once.join("/")), Some(once));
    }
}

#[test]
fn a_parent_undoes_the_name_before_it() {
    assert_eq!(normalize_relative_path("a/../b/c"), normalize_relative_path("b/c"));
    assert_eq!(normalize_relative_path("x/../../y"), normalize_relative_path("../y"));
}

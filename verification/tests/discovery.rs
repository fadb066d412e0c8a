use cargo_rclean::normalize_crate_name;
use cargo_rclean::project::{find_cargo_projects, Ancestor, ManifestCandidate};
use cargo_rclean::walk::{is_rust_file, select_manifests, should_enter};

fn candidate(dir: &str, ancestors: &[(&str, bool)]) -> ManifestCandidate {
    ManifestCandidate {
        dir: dir.as_bytes().to_vec(),
        ancestors: ancestors
            .iter()
            .map(|(p, w)| Ancestor { path: p.as_bytes().to_vec(), is_workspace_root: *w })
            .collect(),
    }
}

#[test]
fn test_normalize_crate_name() {
    assert_eq!(normalize_crate_name("my-crate"), "my_crate");
    assert_eq!(normalize_crate_name("my_crate"), "my_crate");
    assert_eq!(normalize_crate_name("serde-json"), "serde_json");
}

#[test]
fn test_find_cargo_projects_empty() {
    let projects = find_cargo_projects(&Vec::new());
    assert_eq!(projects.len(), 0);
}

#[test]
fn test_find_cargo_projects_standalone() {
    let candidates = vec![candidate("/tmp/my-project", &[("/tmp", false), ("/", false)])];
    let projects = find_cargo_projects(&candidates);
    assert!(projects.len() <= 1);
    assert_eq!(projects.len(), 1);
    assert_eq!(projects[0].path, "/tmp/my-project".as_bytes().to_vec());
    assert!(!projects[0].is_workspace);
}

#[test]
fn test_workspace_members_collapse() {
    // A workspace at /ws with members /ws/a and /ws/b, plus a standalone
    // package: discovery yields exactly two entries, /standalone and /ws.
    let candidates = vec![
        candidate("/ws", &[("/", false)]),
        candidate("/ws/a", &[("/ws", true), ("/", false)]),
        candidate("/ws/b", &[("/ws", true), ("/", false)]),
        candidate("/standalone", &[("/", false)]),
    ];
    let projects = find_cargo_projects(&candidates);
    assert_eq!(projects.len(), 2);
    assert_eq!(projects[0].path, "/standalone".as_bytes().to_vec());
    assert!(!projects[0].is_workspace);
    assert_eq!(projects[1].path, "/ws".as_bytes().to_vec());
    assert!(projects[1].is_workspace);
}

#[test]
fn test_discovery_idempotent_and_order_independent() {
    let candidates = vec![
        candidate("/r/b", &[("/r", false), ("/", false)]),
        candidate("/r/a", &[("/r", false), ("/", false)]),
        candidate("/r/ws/m", &[("/r/ws", true)]),
    ];
    let first = find_cargo_projects(&candidates);
    let second = find_cargo_projects(&candidates);
    assert_eq!(first.len(), second.len());
    for (x, y) in first.iter().zip(second.iter()) {
        assert_eq!(x.path, y.path);
        assert_eq!(x.is_workspace, y.is_workspace);
    }
    let reversed: Vec<ManifestCandidate> = vec![
        candidate("/r/ws/m", &[("/r/ws", true)]),
        candidate("/r/a", &[("/r", false), ("/", false)]),
        candidate("/r/b", &[("/r", false), ("/", false)]),
    ];
    let third = find_cargo_projects(&reversed);
    assert_eq!(first.len(), third.len());
    for (x, y) in first.iter().zip(third.iter()) {
        assert_eq!(x.path, y.path);
        assert_eq!(x.is_workspace, y.is_workspace);
    }
    // Sorted by path.
    assert_eq!(first[0].path, "/r/a".as_bytes().to_vec());
    assert_eq!(first[1].path, "/r/b".as_bytes().to_vec());
    assert_eq!(first[2].path, "/r/ws".as_bytes().to_vec());
}

#[test]
fn test_workspace_dedup_many_members() {
    // Five members of one workspace yield one registry entry, not five.
    let members: Vec<ManifestCandidate> = (0..5)
        .map(|i| {
            let dir = format!("/big/m{}", i);
            ManifestCandidate {
                dir: dir.as_bytes().to_vec(),
                ancestors: vec![Ancestor {
                    path: "/big".as_bytes().to_vec(),
                    is_workspace_root: true,
                }],
            }
        })
        .collect();
    let projects = find_cargo_projects(&members);
    assert_eq!(projects.len(), 1);
    assert_eq!(projects[0].path, "/big".as_bytes().to_vec());
    assert!(projects[0].is_workspace);
}

#[test]
fn test_nearest_workspace_root_wins() {
    // Both /outer and /outer/inner resolve as workspace roots; the nearest
    // ancestor wins.
    let candidates = vec![candidate(
        "/outer/inner/pkg",
        &[("/outer/inner", true), ("/outer", true), ("/", false)],
    )];
    let projects = find_cargo_projects(&candidates);
    assert_eq!(projects.len(), 1);
    assert_eq!(projects[0].path, "/outer/inner".as_bytes().to_vec());
    assert!(projects[0].is_workspace);
}

#[test]
fn test_exclude_glob_prunes_subtree() {
    let rel_paths: Vec<Vec<u8>> = vec![
        "target/foo/Cargo.toml".as_bytes().to_vec(),
        "target/deep/deeper/Cargo.toml".as_bytes().to_vec(),
        "foo/Cargo.toml".as_bytes().to_vec(),
        "sub/skipme/x/Cargo.toml".as_bytes().to_vec(),
    ];
    let patterns: Vec<Vec<u8>> =
        vec!["target".as_bytes().to_vec(), "sub/skipme".as_bytes().to_vec()];
    let kept = select_manifests(&rel_paths, &patterns);
    assert_eq!(kept.len(), 1);
    assert_eq!(kept[0], "foo/Cargo.toml".as_bytes().to_vec());
}

#[test]
fn test_hidden_directories_skipped() {
    let rel_paths: Vec<Vec<u8>> = vec![
        ".git/modules/Cargo.toml".as_bytes().to_vec(),
        "src/Cargo.toml".as_bytes().to_vec(),
        "a/.hidden/Cargo.toml".as_bytes().to_vec(),
    ];
    let patterns: Vec<Vec<u8>> = Vec::new();
    let kept = select_manifests(&rel_paths, &patterns);
    assert_eq!(kept.len(), 1);
    assert_eq!(kept[0], "src/Cargo.toml".as_bytes().to_vec());
}

#[test]
fn test_should_enter_rules() {
    let no_patterns: Vec<Vec<u8>> = Vec::new();
    assert!(!should_enter(".git".as_bytes(), ".git".as_bytes(), &no_patterns));
    assert!(should_enter(".".as_bytes(), "".as_bytes(), &no_patterns));
    assert!(should_enter("..".as_bytes(), "".as_bytes(), &no_patterns));
    assert!(should_enter("src".as_bytes(), "src".as_bytes(), &no_patterns));
    let patterns: Vec<Vec<u8>> = vec!["node_*".as_bytes().to_vec()];
    assert!(!should_enter("node_modules".as_bytes(), "node_modules".as_bytes(), &patterns));
    assert!(should_enter("node".as_bytes(), "node".as_bytes(), &patterns));
}

#[test]
fn test_invalid_glob_pattern_excludes_nothing() {
    let patterns: Vec<Vec<u8>> = vec!["[".as_bytes().to_vec()];
    assert!(should_enter("src".as_bytes(), "src".as_bytes(), &patterns));
}

#[test]
fn test_is_rust_file() {
    assert!(is_rust_file("main.rs".as_bytes()));
    assert!(!is_rust_file("main.rc".as_bytes()));
    assert!(!is_rust_file("rs".as_bytes()));
    assert!(is_rust_file("a/b/lib.rs".as_bytes()));
}

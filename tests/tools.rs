use zed42::tools::{check_disk_health, FileStateGuard, PathProbe, PathSanitizer, ReadFile, MIN_FREE_BYTES};

#[test]
fn test_path_sanitizer_rejects_traversal() {
    let sanitizer = PathSanitizer::new("/sandbox".to_string());
    let probe = PathProbe::Resolved("/etc/passwd".to_string());
    assert!(sanitizer.sanitize("../etc/passwd", &probe).is_err());
    assert!(sanitizer.sanitize("foo/../../../etc/passwd", &probe).is_err());
    assert!(sanitizer.sanitize("..", &probe).is_err());
}

#[test]
fn test_path_sanitizer_accepts_valid_paths() {
    let sanitizer = PathSanitizer::new("/sandbox".to_string());
    let full = sanitizer.full_path("test.txt");
    assert_eq!(full, "/sandbox/test.txt");
    let result = sanitizer.sanitize("test.txt", &PathProbe::Resolved(full));
    assert!(result.is_ok());
}

#[test]
fn resolution_outside_the_root_is_refused() {
    let sanitizer = PathSanitizer::new("/sandbox".to_string());
    assert!(sanitizer.sanitize("link", &PathProbe::Resolved("/etc/shadow".to_string())).is_err());
    assert!(sanitizer.sanitize("x", &PathProbe::Resolved("/sandbox2/x".to_string())).is_err());
    assert!(sanitizer.sanitize("new/file", &PathProbe::ParentResolved("/tmp".to_string())).is_err());
    assert!(sanitizer.sanitize("missing/file", &PathProbe::Unresolvable).is_err());
    assert_eq!(
        sanitizer.sanitize("new.txt", &PathProbe::ParentResolved("/sandbox".to_string())).unwrap(),
        "/sandbox/new.txt"
    );
    let rooted = PathSanitizer::new("/".to_string());
    assert_eq!(rooted.full_path("a"), "/a");
    assert!(rooted.sanitize("a", &PathProbe::Resolved("/a".to_string())).is_ok());
}

#[test]
fn guard_writes_to_a_shadow_sibling() {
    let sanitizer = PathSanitizer::new("/sandbox".to_string());
    let probe = PathProbe::ParentResolved("/sandbox/src".to_string());
    let g = FileStateGuard::new(&sanitizer, "src/lib.rs", &probe, MIN_FREE_BYTES).unwrap();
    assert_eq!(g.target_path, "/sandbox/src/lib.rs");
    assert_eq!(g.path(), "/sandbox/src/.lib.rs.tmp");
    assert!(!g.completed);
    let d = FileStateGuard::new_dir(&sanitizer, "src/gen", &probe, MIN_FREE_BYTES).unwrap();
    assert_eq!(d.path(), "/sandbox/src/.tmp_dir_gen");
    assert!(FileStateGuard::new(&sanitizer, "src/lib.rs", &probe, MIN_FREE_BYTES - 1).is_err());
}

#[test]
fn disk_health_threshold() {
    assert!(check_disk_health(500 * 1024 * 1024).is_ok());
    assert!(check_disk_health(500 * 1024 * 1024 - 1).is_err());
    let tool = ReadFile::new("/sandbox".to_string());
    assert_eq!(tool.sanitizer.sandbox_root, "/sandbox");
}

use zed42::tools::SpaceSentry;

#[test]
fn space_sentry_halts_until_space_returns() {
    let mut s = SpaceSentry::new();
    assert!(s.check_vital_signs(Some(0)).is_ok());
    s.refresh_and_verify(Some(MIN_FREE_BYTES - 1));
    assert!(s.critical);
    assert!(s.check_vital_signs(Some(10)).is_err());
    assert!(s.check_vital_signs(Some(MIN_FREE_BYTES)).is_ok());
    assert!(!s.critical);
}

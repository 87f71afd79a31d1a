use davbox::config::ServerConfig;
use davbox::dav::ResourceInfo;
use davbox::fs_backend::FsEntry;
use davbox::fs_backend::{
    is_dot_component, path_components, sanitize_relative_path, within_root, ErrorKind,
    FileSystemBackend, SegmentProbe,
};

fn backend(hide_dotfiles: bool) -> FileSystemBackend {
    let config = ServerConfig { hide_dotfiles, ..ServerConfig::default() };
    FileSystemBackend::new("/tmp/davbox-share".to_string(), &config)
}

fn entry(name: &str) -> FsEntry {
    FsEntry { name: name.to_string(), metadata: ResourceInfo { is_dir: false, len: 1, modified: 0 } }
}

#[test]
fn rejects_parent_traversal() {
    let root = "/tmp/davbox-test".to_string();
    let backend = FileSystemBackend::new(root, &ServerConfig::default());
    assert!(backend.resolve("/../secret").is_err());
}

#[test]
fn hides_dotfiles() {
    let root = "/tmp/davbox-dot-test".to_string();
    let backend = FileSystemBackend::new(root, &ServerConfig::default());
    assert!(backend.resolve("/.env").is_err());
}

#[test]
fn resolve_joins_named_segments_under_the_root() {
    let b = backend(true);
    assert_eq!(b.resolve("/a/./b//c%20d.txt").unwrap(), "/tmp/davbox-share/a/b/c d.txt");
    assert_eq!(b.resolve("/").unwrap(), "/tmp/davbox-share/");
    assert_eq!(b.resolve("/docs?x=1").unwrap(), "/tmp/davbox-share/docs");
}

#[test]
fn resolve_error_kinds() {
    let b = backend(true);
    let e = b.resolve("/a/../../etc").unwrap_err();
    assert_eq!(e.kind, ErrorKind::PermissionDenied);
    assert_eq!(e.message, "Path escapes shared root");
    let e = b.resolve("/a/.git/config").unwrap_err();
    assert_eq!(e.kind, ErrorKind::NotFound);
    assert_eq!(e.message, "Hidden files are not exposed");
    let e = b.resolve("/%zz").unwrap_err();
    assert_eq!(e.kind, ErrorKind::InvalidInput);
    assert_eq!(e.message, "Invalid percent encoding");
    let e = b.resolve("/%2e%2e/x").unwrap_err();
    assert_eq!(e.kind, ErrorKind::PermissionDenied);
}

#[test]
fn dotfiles_resolve_when_not_hidden() {
    assert_eq!(backend(false).resolve("/.env").unwrap(), "/tmp/davbox-share/.env");
}

#[test]
fn listing_hides_dotfiles_and_sorts_by_name() {
    let entries = vec![entry("b.txt"), entry(".env"), entry("A.txt"), entry("a"), entry("ab")];
    let names: Vec<String> =
        backend(true).listing(entries).into_iter().map(|e| e.name).collect();
    assert_eq!(names, vec!["A.txt", "a", "ab", "b.txt"]);
}

#[test]
fn listing_keeps_dotfiles_when_shown() {
    let entries = vec![entry("z"), entry(".env")];
    let names: Vec<String> =
        backend(false).listing(entries).into_iter().map(|e| e.name).collect();
    assert_eq!(names, vec![".env", "z"]);
}

#[test]
fn listing_orders_by_code_point() {
    let entries = vec![entry("é"), entry("z"), entry("Z")];
    let names: Vec<String> =
        backend(true).listing(entries).into_iter().map(|e| e.name).collect();
    assert_eq!(names, vec!["Z", "z", "é"]);
}

#[test]
fn containment_is_checked_by_components() {
    assert!(within_root("/srv/share/a", "/srv/share"));
    assert!(within_root("/srv/share", "/srv/share/"));
    assert!(!within_root("/srv/shared", "/srv/share"));
    assert!(!within_root("/srv", "/srv/share"));
    assert_eq!(path_components("/a//b/./c/"), vec!["/", "a", "b", "c"]);
    assert_eq!(path_components("./x"), vec![".", "x"]);
}

#[test]
fn root_must_be_a_folder() {
    let b = backend(true);
    assert!(b.check_root(true).is_ok());
    let e = b.check_root(false).unwrap_err();
    assert_eq!(e.kind, ErrorKind::InvalidInput);
    assert_eq!(e.message, "Not a directory: /tmp/davbox-share");
}

#[test]
fn symlink_check_steps() {
    let b = backend(true);
    let e = b.symlink_check_step(SegmentProbe::Symlink).unwrap().unwrap_err();
    assert_eq!(e.kind, ErrorKind::PermissionDenied);
    assert_eq!(e.message, "Symlinks are disabled");
    assert!(b.symlink_check_step(SegmentProbe::Present).is_none());
    assert!(b.symlink_check_step(SegmentProbe::Missing).unwrap().is_ok());
}

#[test]
fn relative_paths_keep_only_named_segments() {
    assert_eq!(sanitize_relative_path("/a/./b//c/").unwrap(), "a/b/c");
    assert_eq!(sanitize_relative_path("/").unwrap(), "");
    let e = sanitize_relative_path("/a/../b").unwrap_err();
    assert_eq!(e.kind, ErrorKind::PermissionDenied);
    assert_eq!(e.message, "Path escapes shared root");
}

#[test]
fn dot_components_start_with_a_dot() {
    assert!(is_dot_component(".env"));
    assert!(is_dot_component(".."));
    assert!(!is_dot_component("env"));
    assert!(!is_dot_component(""));
}

#[test]
fn symlink_walk_refuses_a_link_before_any_missing_segment() {
    let b = backend(true);
    let e = b.check_symlink_probes(&vec![SegmentProbe::Present, SegmentProbe::Symlink]).unwrap_err();
    assert_eq!(e.kind, ErrorKind::PermissionDenied);
    assert_eq!(e.message, "Symlinks are disabled");
    assert!(b.check_symlink_probes(&vec![SegmentProbe::Present, SegmentProbe::Missing, SegmentProbe::Symlink]).is_ok());
    assert!(b.check_symlink_probes(&vec![SegmentProbe::Present, SegmentProbe::Present]).is_ok());
    assert!(b.check_symlink_probes(&vec![]).is_ok());
}

#[test]
fn confinement_checks_parent_then_links() {
    let strict = backend(true);
    assert!(strict.check_confined("/srv/share/a", "/srv/share", &vec![SegmentProbe::Present]).is_ok());
    let e = strict.check_confined("/srv/other", "/srv/share", &vec![]).unwrap_err();
    assert_eq!(e.kind, ErrorKind::PermissionDenied);
    assert_eq!(e.message, "Path escapes shared root");
    let e = strict
        .check_confined("/srv/share", "/srv/share", &vec![SegmentProbe::Symlink])
        .unwrap_err();
    assert_eq!(e.message, "Symlinks are disabled");
    let config = ServerConfig { follow_symlinks: true, ..ServerConfig::default() };
    let lenient = FileSystemBackend::new("/srv/share".to_string(), &config);
    assert!(lenient.check_confined("/srv/share", "/srv/share", &vec![SegmentProbe::Symlink]).is_ok());
    let e = lenient.check_confined("/srv", "/srv/share", &vec![]).unwrap_err();
    assert_eq!(e.message, "Path escapes shared root");
}

use cfront::error::{Error, IoErrorKind};
use cfront::tracking::file::{FileManager, FileRef, Options};

fn manager_with_wd(wd: &str) -> FileManager {
    FileManager::new(Options { working_directory: Some(String::from(wd)) })
}

#[test]
fn file_ref_keeps_path_and_content() {
    let f = FileRef::new(String::from("/proj/a.c"), String::from("int main(){}\n"));
    assert_eq!(f.path(), "/proj/a.c");
    assert_eq!(f.content(), "int main(){}\n");
    let g = f.clone();
    assert_eq!(g.path(), f.path());
    assert_eq!(g.content(), f.content());
}

#[test]
fn cache_keeps_first_content() {
    let mut m = manager_with_wd("/proj");
    let first = m.insert_file("a.c", String::from("int main(){}\n"));
    assert_eq!(first.content(), "int main(){}\n");
    // The file "changes on disk": a later load hands in different text,
    // but the cache keeps what was loaded first.
    let second = m.insert_file("a.c", String::from("changed"));
    assert_eq!(second.content(), "int main(){}\n");
    let hit = m.cached_file("a.c").expect("path is cached");
    let again = m.cached_file("a.c").expect("path is cached");
    assert_eq!(hit.content(), "int main(){}\n");
    assert_eq!(again.content(), hit.content());
    assert_eq!(again.path(), hit.path());
}

#[test]
fn relative_and_absolute_share_entry() {
    let mut m = manager_with_wd("/proj");
    let f = m.insert_file("a.c", String::from("text"));
    assert_eq!(f.path(), "/proj/a.c");
    let by_abs = m.cached_file("/proj/a.c").expect("same cache entry");
    assert_eq!(by_abs.content(), "text");

    let mut m2 = manager_with_wd("/proj");
    m2.insert_file("/proj/b.c", String::from("b"));
    let by_rel = m2.cached_file("b.c").expect("same cache entry");
    assert_eq!(by_rel.content(), "b");
}

#[test]
fn absolute_path_bypasses_working_directory() {
    let mut m = manager_with_wd("/proj");
    let f = m.insert_file("/other/c.c", String::from("c"));
    assert_eq!(f.path(), "/other/c.c");
    assert!(m.cached_file("c.c").is_none());
}

#[test]
fn no_working_directory_keeps_path() {
    let mut m = FileManager::new(Options { working_directory: None });
    let f = m.insert_file("a.c", String::from("x"));
    assert_eq!(f.path(), "a.c");
    assert_eq!(m.resolve_path("b.c"), "b.c");
}

#[test]
fn working_directory_with_trailing_separator() {
    let m = manager_with_wd("/proj/");
    assert_eq!(m.resolve_path("a.c"), "/proj/a.c");
}

#[test]
fn empty_working_directory_keeps_path() {
    let m = manager_with_wd("");
    assert_eq!(m.resolve_path("a.c"), "a.c");
}

#[test]
fn miss_changes_nothing() {
    let m = manager_with_wd("/proj");
    assert!(m.cached_file("missing.c").is_none());
    assert!(m.cached_file("/proj/missing.c").is_none());
}

#[test]
fn io_error_carries_kind() {
    let e = Error::IoError(IoErrorKind::NotFound);
    assert!(matches!(e, Error::IoError(IoErrorKind::NotFound)));
    assert_ne!(e, Error::IoError(IoErrorKind::PermissionDenied));
    assert_ne!(e, Error::IoError(IoErrorKind::InvalidData));
    assert_ne!(e, Error::IoError(IoErrorKind::Other));
}

#[test]
fn options_are_kept() {
    let m = manager_with_wd("/proj");
    assert_eq!(m.options().working_directory.as_deref(), Some("/proj"));
    let n = FileManager::new(Options { working_directory: None });
    assert!(n.options().working_directory.is_none());
}

use cfront::tracking::file::{FileManager, FileRef, Options};
use cfront::tracking::source::{EntryKind, SourceManager};

fn empty_manager() -> SourceManager {
    SourceManager::new(FileManager::new(Options { working_directory: None }))
}

#[test]
fn offsets_accumulate() {
    let mut sm = empty_manager();
    let lens = [13usize, 5, 7];
    let mut expected_base = 0u64;
    for (k, n) in lens.iter().enumerate() {
        let f = FileRef::new(format!("f{k}.c"), "x".repeat(*n));
        let id = sm.create_source_id(f, None);
        assert_eq!(sm.entry(id).base, expected_base);
        assert_eq!(sm.entry(id).length, *n as u64);
        expected_base += *n as u64;
        assert_eq!(sm.cumulative_offset(), expected_base);
    }
    assert_eq!(sm.entry_count(), 3);
}

#[test]
fn scenario_root_file() {
    let fm = FileManager::new(Options { working_directory: Some(String::from("/proj")) });
    let mut sm = SourceManager::new(fm);
    let f = sm.insert_file("a.c", String::from("int main(){}\n"));
    assert_eq!(f.content().len(), 13);
    assert_eq!(sm.entry_count(), 0);
    let id = sm.create_source_id(f, None);
    assert_eq!(sm.entry_count(), 1);
    assert_eq!(sm.cumulative_offset(), 13);
    assert_eq!(sm.entry(id).base, 0);
    assert_eq!(sm.entry(id).length, 13);
    match &sm.entry(id).kind {
        EntryKind::File(fe) => {
            assert_eq!(fe.file_ref.path(), "/proj/a.c");
            assert!(fe.include_pos.is_none());
        }
        EntryKind::Expansion(_) => panic!("expected a file entry"),
    }
    let pos = sm.entry_pos(id, 4);
    let (rid, off) = sm.resolve_entry(pos);
    assert_eq!(rid, id);
    assert_eq!(off, 4);
    let loc = sm.resolve(pos);
    assert_eq!(loc.file.path(), "/proj/a.c");
    assert_eq!(loc.offset, 4);
    assert_eq!(loc.line, 1);
    assert_eq!(loc.column, 5);
}

#[test]
fn resolution_round_trip() {
    let mut sm = empty_manager();
    let texts = ["int main(){}\n", "ab\ncd", "x"];
    let mut ids = Vec::new();
    for (k, t) in texts.iter().enumerate() {
        ids.push(sm.create_source_id(FileRef::new(format!("f{k}.c"), String::from(*t)), None));
    }
    for (k, t) in texts.iter().enumerate() {
        for o in 0..t.len() as u64 {
            let pos = sm.entry_pos(ids[k], o);
            let (rid, off) = sm.resolve_entry(pos);
            assert_eq!(rid, ids[k]);
            assert_eq!(off, o);
            let loc = sm.resolve(pos);
            assert_eq!(loc.offset, o);
            // line and column from a manual count of terminators
            let prefix = &t[..o as usize];
            let line = 1 + prefix.matches('\n').count() as u64;
            let start = prefix.rfind('\n').map(|i| i + 1).unwrap_or(0);
            let column = (o as usize - start) as u64 + 1;
            assert_eq!(loc.line, line);
            assert_eq!(loc.column, column);
        }
    }
    assert_eq!(sm.cumulative_offset(), texts.iter().map(|t| t.len() as u64).sum::<u64>());
}

#[test]
fn boundary_position_resolves_to_next_entry() {
    let mut sm = empty_manager();
    let a = sm.create_source_id(FileRef::new(String::from("a.c"), String::from("aaaaa")), None);
    let b = sm.create_source_id(FileRef::new(String::from("b.c"), String::from("bbb")), None);
    assert_eq!(sm.entry(b).base, 5);
    let pos = sm.entry_pos(b, 0);
    let (rid, off) = sm.resolve_entry(pos);
    assert_eq!(rid, b);
    assert_ne!(rid, a);
    assert_eq!(off, 0);
}

#[test]
fn empty_file_owns_no_position() {
    let mut sm = empty_manager();
    sm.create_source_id(FileRef::new(String::from("a.c"), String::from("12345")), None);
    let e = sm.create_source_id(FileRef::new(String::from("empty.c"), String::new()), None);
    let c = sm.create_source_id(FileRef::new(String::from("c.c"), String::from("xy")), None);
    assert_eq!(sm.entry(e).base, 5);
    assert_eq!(sm.entry(e).length, 0);
    assert_eq!(sm.entry(c).base, 5);
    let pos = sm.entry_pos(c, 0);
    let (rid, off) = sm.resolve_entry(pos);
    assert_eq!(rid, c);
    assert_eq!(off, 0);
}

#[test]
fn include_position_is_recorded() {
    let mut sm = empty_manager();
    let root = sm.create_source_id(FileRef::new(String::from("root.c"), String::from("#include\n")), None);
    let at = sm.entry_pos(root, 0);
    let inc = sm.create_source_id(FileRef::new(String::from("inc.h"), String::from("h")), Some(at));
    match &sm.entry(inc).kind {
        EntryKind::File(fe) => assert_eq!(fe.include_pos, Some(at)),
        EntryKind::Expansion(_) => panic!("expected a file entry"),
    }
}

#[test]
fn positions_are_ordered_by_registration() {
    let mut sm = empty_manager();
    let a = sm.create_source_id(FileRef::new(String::from("a.c"), String::from("aaaa")), None);
    let b = sm.create_source_id(FileRef::new(String::from("b.c"), String::from("bb")), None);
    let p0 = sm.entry_pos(a, 0);
    let p3 = sm.entry_pos(a, 3);
    let q0 = sm.entry_pos(b, 0);
    assert!(p0 < p3);
    assert!(p3 < q0);
    assert_eq!(p0, sm.entry_pos(a, 0));
}

#[test]
fn source_manager_shares_cache() {
    let fm = FileManager::new(Options { working_directory: Some(String::from("/proj")) });
    let mut sm = SourceManager::new(fm);
    sm.insert_file("a.c", String::from("text"));
    let hit = sm.file_manager().cached_file("a.c").expect("loaded through the manager");
    assert_eq!(hit.path(), "/proj/a.c");
    assert_eq!(sm.file_manager().options().working_directory.as_deref(), Some("/proj"));
}

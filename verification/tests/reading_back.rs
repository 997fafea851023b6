use asheraflow::vcs::database::tree_diff::TreeDiff;
use asheraflow::stdtext::is_whitespace;
use asheraflow::vcs::database::database::{Database, GitObject, StoredObject};
use asheraflow::vcs::database::tree::Tree;
use asheraflow::vcs::database::entry::DatabaseEntry;
use asheraflow::vcs::blob::Blob;
use asheraflow::vcs::refs::Refs;
use asheraflow::vcs::branch_metadata::{SprintMetadata, BranchMetadataManager};
use asheraflow::vcs::merge::bases::AncestorWalk;
use asheraflow::vcs::sprint::sprint::{Sprint, Task, TaskStatus};
use asheraflow::vcs::sprint::manager::SprintManager;
use asheraflow::vcs::sprint::record::{task_record, read_task_record, join_with, to_one_line};

#[test]
fn stored_blob_loads_again_from_the_cache() {
    let mut db = Database::new("objects".to_string());
    let mut blob = Blob::new(b"some data".to_vec());
    let oid = db.store(&mut blob).unwrap();
    let writes = db.take_writes();
    match db.load(&oid, Some(writes[0].compressed.clone())).unwrap() {
        StoredObject::Blob(b) => assert_eq!(b.to_bytes(), b"some data".to_vec()),
        _ => panic!("expected a blob"),
    }
    match db.load(&oid, None).unwrap() {
        StoredObject::Blob(b) => {
            assert_eq!(b.to_bytes(), b"some data".to_vec());
            assert_eq!(b.get_oid(), Some(&oid));
        },
        _ => panic!("expected a blob"),
    }
}

#[test]
fn sprint_metadata_reads_back_through_its_reference() {
    let manager = BranchMetadataManager::new(".");
    let mut db = Database::new("objects".to_string());
    let meta = SprintMetadata::new_at("Release Two".to_string(), 10, 1_650_000_000);
    let w = manager.store_sprint_metadata(&mut db, "release-two", &meta, Some("d".repeat(40))).unwrap();
    let writes = db.take_writes();
    assert_eq!(writes.len(), 1);
    assert_eq!(writes[0].oid, w.oid);
    let refs = Refs::new(".git");
    let read = refs.read_ref(&w.meta_ref, &vec![Some(Some(w.content.clone()))]).unwrap().unwrap();
    assert_eq!(read, w.oid);
    let mut fresh = Database::new("objects".to_string());
    let loaded = fresh.load(&read, Some(writes[0].compressed.clone()));
    let back = manager.get_sprint_metadata(Some(loaded)).unwrap().unwrap();
    assert_eq!(back.name, "Release Two");
    assert_eq!(back.start_timestamp, 1_650_000_000);
    assert_eq!(back.duration_days, 10);
}

#[test]
fn saved_sprint_is_found_as_current_sprint() {
    let sprint = Sprint::new_at("Sprint Nine".to_string(), 7, 1_600_000_000);
    assert_eq!(sprint.branch, "sprint-sprint-nine");
    let manager = SprintManager::new(".");
    let saved = manager.save_sprint(&sprint).unwrap();
    assert_eq!(saved.branch_name, "sprint-nine");
    assert_eq!(saved.metadata.duration_days, 7);
    let found = manager.get_current_sprint(&sprint.branch, Some(saved.metadata.clone()), 1_600_000_000 + 3600).unwrap().unwrap();
    assert_eq!(found.name, sprint.name);
    assert_eq!(found.start_date, sprint.start_date);
    assert_eq!(found.end_date, sprint.end_date);
    assert_eq!(found.branch, sprint.branch);
    let later = manager.get_current_sprint(&sprint.branch, Some(saved.metadata), sprint.end_date + 1).unwrap();
    assert!(later.is_none());
}

#[test]
fn activity_is_decided_by_the_end() {
    let meta = SprintMetadata::new_at("S".to_string(), 1, 1000);
    assert!(meta.is_active_at(1000 + 86400));
    assert!(!meta.is_active_at(1000 + 86401));
    let sprint = Sprint::new_at("S".to_string(), 1, 1000);
    assert!(sprint.is_active_at(1000 + 86400));
    assert!(!sprint.is_active_at(1000 + 86401));
    let far = SprintMetadata::new_at("Far".to_string(), 1, 4_000_000_000);
    assert!(far.is_active());
    let past = SprintMetadata::new_at("Past".to_string(), 1, 0);
    assert!(!past.is_active());
}

#[test]
fn empty_index_writes_the_empty_tree() {
    let mut db = Database::new("objects".to_string());
    let items = Tree::build_items(&Vec::new()).unwrap();
    let dirs = Tree::directories(&items);
    let root = Tree::write_trees(&mut db, &items, &dirs);
    assert_eq!(root, "4b825dc642cb6eb9a060e54bf8d69288fbee4904");
    assert_eq!(db.take_writes().len(), 1);
}

#[test]
fn trees_are_written_deepest_first_and_root_is_returned() {
    let mut db = Database::new("objects".to_string());
    let entries = vec![
        DatabaseEntry::new("a.txt".to_string(), "1".repeat(40), "100644"),
        DatabaseEntry::new("src/lib.rs".to_string(), "2".repeat(40), "100644"),
    ];
    let items = Tree::build_items(&entries).unwrap();
    let dirs = Tree::directories(&items);
    let root = Tree::write_trees(&mut db, &items, &dirs);
    let writes = db.take_writes();
    assert_eq!(writes.len(), 2);
    assert_eq!(writes[1].oid, root);
    let mut fresh = Database::new("objects".to_string());
    let src_oid = writes[0].oid.clone();
    match fresh.load(&root, Some(writes[1].compressed.clone())).unwrap() {
        StoredObject::Tree(t) => {
            let names: Vec<&str> = t.get_entries().iter().map(|(n, _)| n.as_str()).collect();
            assert_eq!(names, vec!["a.txt", "src"]);
        },
        _ => panic!("expected a tree"),
    }
    match fresh.load(&src_oid, Some(writes[0].compressed.clone())).unwrap() {
        StoredObject::Tree(t) => {
            let names: Vec<&str> = t.get_entries().iter().map(|(n, _)| n.as_str()).collect();
            assert_eq!(names, vec!["lib.rs"]);
        },
        _ => panic!("expected a tree"),
    }
}

#[test]
fn ancestor_walk_lists_each_commit_once() {
    let mut walk = AncestorWalk::new("c3");
    assert_eq!(walk.next(), Some("c3".to_string()));
    walk.parent_found(Some("c2".to_string()));
    assert_eq!(walk.next(), Some("c2".to_string()));
    walk.parent_found(Some("c3".to_string()));
    assert_eq!(walk.next(), None);
    assert_eq!(walk.ancestors(), vec!["c3".to_string(), "c2".to_string()]);
    let mut root = AncestorWalk::new("r");
    assert_eq!(root.next(), Some("r".to_string()));
    root.parent_found(None);
    assert_eq!(root.next(), None);
    assert_eq!(root.ancestors(), vec!["r".to_string()]);
}

#[test]
fn story_points_must_fit_in_32_bits() {
    let a = Task::new_at("a".to_string(), "first".to_string(), Some(u32::MAX), 0);
    let b = Task::new_at("b".to_string(), "second".to_string(), Some(1), 0);
    let c = Task::new_at("c".to_string(), "third".to_string(), None, 0);
    assert!(!Sprint::points_fit(&vec![a.clone(), b.clone()]));
    assert!(Sprint::points_fit(&vec![a, c.clone()]));
    assert!(Sprint::points_fit(&vec![b, c]));
    assert!(Sprint::points_fit(&Vec::new()));
}

#[test]
fn task_record_reads_back() {
    let mut t = Task::new_at("T-1".to_string(), "two\nlines".to_string(), Some(5), 1_700_000_000);
    t.status = TaskStatus::Done;
    t.started_at = Some(1_700_000_100);
    t.completed_at = Some(1_700_000_200);
    t.commits = vec!["a".repeat(40), "b".repeat(40)];
    let text = task_record(&t, "sprint-one");
    assert_eq!(text, format!(
        "id=T-1\ndescription=two lines\npoints=5\nstatus=done\ncreated=1700000000\nstarted=1700000100\ncompleted=1700000200\nsprint=sprint-one\ncommits={},{}\n",
        "a".repeat(40), "b".repeat(40)));
    let (back, sprint) = read_task_record(&text).unwrap();
    assert_eq!(back.id, "T-1");
    assert_eq!(back.description, "two lines");
    assert_eq!(back.story_points, Some(5));
    assert_eq!(back.status, TaskStatus::Done);
    assert_eq!(back.created_at, 1_700_000_000);
    assert_eq!(back.started_at, Some(1_700_000_100));
    assert_eq!(back.completed_at, Some(1_700_000_200));
    assert_eq!(back.commits, vec!["a".repeat(40), "b".repeat(40)]);
    assert_eq!(sprint, Some("sprint-one".to_string()));
}

#[test]
fn task_record_with_empty_fields() {
    let t = Task::new_at("T-2".to_string(), "plain".to_string(), None, 7);
    let text = task_record(&t, "");
    assert_eq!(text, "id=T-2\ndescription=plain\npoints=\nstatus=todo\ncreated=7\nstarted=\ncompleted=\nsprint=\ncommits=\n");
    let (back, sprint) = read_task_record(&text).unwrap();
    assert_eq!(back.story_points, None);
    assert_eq!(back.status, TaskStatus::Todo);
    assert_eq!(back.started_at, None);
    assert!(back.commits.is_empty());
    assert_eq!(sprint, None);
}

#[test]
fn malformed_task_record_is_refused() {
    assert!(read_task_record("id=T-3\n").is_none());
    assert!(read_task_record("").is_none());
    assert!(read_task_record("description=x\nid=T\npoints=\nstatus=\ncreated=\nstarted=\ncompleted=\nsprint=\ncommits=\n").is_none());
    let (back, _) = read_task_record("id=T\ndescription=\npoints=x\nstatus=odd\ncreated=zz\nstarted=\ncompleted=\nsprint=\ncommits=\n").unwrap();
    assert_eq!(back.story_points, None);
    assert_eq!(back.status, TaskStatus::Todo);
    assert_eq!(back.created_at, 0);
}

#[test]
fn joining_and_one_line_text() {
    assert_eq!(join_with(&vec!["a".to_string(), "b".to_string(), "c".to_string()], ','), "a,b,c");
    assert_eq!(join_with(&Vec::new(), ','), "");
    assert_eq!(to_one_line("a\nb\n"), "a b ");
}

#[test]
fn whitespace_agrees_with_std() {
    for v in 0u32..0x3100 {
        if let Some(c) = char::from_u32(v) {
            assert_eq!(is_whitespace(c), c.is_whitespace(), "character {:#x}", v);
        }
    }
}

fn change_summary(diff: &TreeDiff) -> Vec<(String, Option<String>, Option<String>)> {
    let mut v: Vec<(String, Option<String>, Option<String>)> = diff.changes().iter()
        .map(|c| (c.path.clone(), c.old.as_ref().map(|e| e.oid.clone()), c.new.as_ref().map(|e| e.oid.clone())))
        .collect();
    v.sort();
    v
}

#[test]
fn flat_tree_comparison_swaps_with_its_sides() {
    let a = vec![
        DatabaseEntry::new("same.txt".to_string(), "1".repeat(40), "100644"),
        DatabaseEntry::new("changed.txt".to_string(), "2".repeat(40), "100644"),
        DatabaseEntry::new("gone.txt".to_string(), "3".repeat(40), "100644"),
    ];
    let b = vec![
        DatabaseEntry::new("same.txt".to_string(), "1".repeat(40), "100644"),
        DatabaseEntry::new("changed.txt".to_string(), "4".repeat(40), "100644"),
        DatabaseEntry::new("new.txt".to_string(), "5".repeat(40), "100644"),
    ];
    let mut forward = TreeDiff::new();
    let next = forward.compare_oids(Some("x"), Some("y"), "dir", &a, &b);
    assert!(next.is_empty());
    assert_eq!(change_summary(&forward), vec![
        ("dir/changed.txt".to_string(), Some("2".repeat(40)), Some("4".repeat(40))),
        ("dir/gone.txt".to_string(), Some("3".repeat(40)), None),
        ("dir/new.txt".to_string(), None, Some("5".repeat(40))),
    ]);
    let mut backward = TreeDiff::new();
    backward.compare_oids(Some("y"), Some("x"), "dir", &b, &a);
    assert_eq!(change_summary(&backward), vec![
        ("dir/changed.txt".to_string(), Some("4".repeat(40)), Some("2".repeat(40))),
        ("dir/gone.txt".to_string(), None, Some("3".repeat(40))),
        ("dir/new.txt".to_string(), Some("5".repeat(40)), None),
    ]);
    let mut same = TreeDiff::new();
    assert!(same.compare_oids(Some("x"), Some("x"), "", &a, &b).is_empty());
    assert!(same.changes().is_empty());
}

use asheraflow::vcs::database::database::{Database, GitObject, StoredObject};
use asheraflow::vcs::database::tree::{Tree, TreeEntry};
use asheraflow::vcs::database::commit::Commit;
use asheraflow::vcs::database::author::Author;
use asheraflow::vcs::database::entry::DatabaseEntry;
use asheraflow::vcs::database::verify::{check_commit, check_tree, check_links, missing_commit_error};
use asheraflow::vcs::blob::Blob;
use asheraflow::vcs::index::index::Index;
use asheraflow::vcs::index::entry::FileStat;
use asheraflow::vcs::file_mode::FileMode;
use asheraflow::vcs::diff::myers::{diff_lines, format_diff, Edit};
use asheraflow::vcs::diff::diff::split_lines;
use asheraflow::vcs::merge::resolve::{merge3_oid, merge_modes};
use asheraflow::vcs::refs::{Refs, Reference};
use asheraflow::vcs::branch_metadata::{SprintMetadata, BranchMetadataManager};
use asheraflow::errors::error::Error;

fn stat() -> FileStat {
    FileStat { permissions: 0o100644, ctime: 10, ctime_nsec: 1, mtime: 20, mtime_nsec: 2, size: 6 }
}

fn lines(v: &[&str]) -> Vec<String> {
    v.iter().map(|s| s.to_string()).collect()
}

#[test]
fn blob_id_is_the_git_id() {
    let db = Database::new("objects".to_string());
    assert_eq!(db.hash_file_data(b"hello\n"), "ce013625030ba8dba906f756967f9e9ca394464a");
}

#[test]
fn stored_object_loads_back() {
    let mut db = Database::new("objects".to_string());
    let mut blob = Blob::new(b"hello\n".to_vec());
    let oid = db.store(&mut blob).unwrap();
    assert_eq!(oid, "ce013625030ba8dba906f756967f9e9ca394464a");
    assert_eq!(blob.get_oid(), Some(&oid));
    let writes = db.take_writes();
    assert_eq!(writes.len(), 1);
    assert_eq!(writes[0].path, "objects/ce/013625030ba8dba906f756967f9e9ca394464a");
    let mut fresh = Database::new("objects".to_string());
    match fresh.load(&oid, Some(writes[0].compressed.clone())).unwrap() {
        StoredObject::Blob(b) => assert_eq!(b.to_bytes(), b"hello\n".to_vec()),
        _ => panic!("expected a blob"),
    }
}

#[test]
fn loading_a_missing_object_fails() {
    let mut db = Database::new("objects".to_string());
    assert!(db.load("0123", None).is_err());
}

#[test]
fn tree_round_trip() {
    let mut tree = Tree::new();
    tree.insert_entry("b.txt".to_string(), TreeEntry::Blob("ce013625030ba8dba906f756967f9e9ca394464a".to_string(), 0o100644));
    tree.insert_entry("a.sh".to_string(), TreeEntry::Blob("aaf4c61ddcc5e8a2dabede0f3b482cd9aea9434d".to_string(), 0o100755));
    let bytes = tree.to_bytes();
    let parsed = Tree::parse(&bytes).unwrap();
    let names: Vec<&str> = parsed.get_entries().iter().map(|(n, _)| n.as_str()).collect();
    assert_eq!(names, vec!["a.sh", "b.txt"]);
    assert_eq!(parsed.to_bytes(), bytes);
}

#[test]
fn commit_round_trip() {
    let author = Author::new_at("Ana".to_string(), "ana@example.com".to_string(), 1700000000);
    let commit = Commit::new(Some("p".repeat(40)), "t".repeat(40), author, "first\n".to_string());
    let bytes = commit.to_bytes();
    let parsed = Commit::parse(&bytes).unwrap();
    assert_eq!(parsed.get_tree(), "t".repeat(40));
    assert_eq!(parsed.get_parent(), Some(&"p".repeat(40)));
    assert_eq!(parsed.get_author().name, "Ana");
    assert_eq!(parsed.get_author().timestamp, 1700000000);
}

#[test]
fn index_add_then_lookup() {
    let mut index = Index::new("index");
    index.add("b.txt", &"1".repeat(40), &stat()).unwrap();
    index.add("a.txt", &"2".repeat(40), &stat()).unwrap();
    index.add("b.txt", &"3".repeat(40), &stat()).unwrap();
    let e = index.get_entry("b.txt").unwrap();
    assert_eq!(e.oid, "3".repeat(40));
    let paths: Vec<&str> = index.each_entry().iter().map(|e| e.path.as_str()).collect();
    assert_eq!(paths, vec!["a.txt", "b.txt"]);
    assert!(index.is_tracked("a.txt"));
    assert!(!index.is_tracked("c.txt"));
    assert!(index.is_changed());
}

#[test]
fn index_remove_forgets_the_path() {
    let mut index = Index::new("index");
    index.add("a.txt", &"2".repeat(40), &stat()).unwrap();
    index.remove("a.txt").unwrap();
    assert!(index.get_entry("a.txt").is_none());
}

#[test]
fn file_modes() {
    assert_eq!(FileMode::parse("100644"), 0o100644);
    assert_eq!(FileMode::parse("40000"), 0o40000);
    assert_eq!(FileMode::parse("040000"), 0o40000);
    assert_eq!(FileMode::parse("16384"), 0o40000);
    assert_eq!(FileMode::parse("755"), 755);
    assert_eq!(FileMode::parse("0755"), 0o755);
    for m in [FileMode::DIRECTORY, FileMode::REGULAR, FileMode::EXECUTABLE, FileMode::SYMLINK] {
        assert_eq!(FileMode::parse(&FileMode::to_octal_string(m)), m);
    }
    assert_eq!(FileMode::to_octal_string(0o100755), "100755");
    assert!(FileMode::is_directory(0o040000));
    assert!(!FileMode::is_directory(0o100644));
    assert!(FileMode::is_executable(0o100755));
}

#[test]
fn edit_script_keeps_common_lines() {
    let a = lines(&["a", "b", "c"]);
    let b = lines(&["a", "x", "c"]);
    let edits = diff_lines(&a, &b);
    let kept = edits.iter().filter(|e| matches!(e, Edit::Equal(_, _))).count();
    let deleted = edits.iter().filter(|e| matches!(e, Edit::Delete(_))).count();
    let inserted = edits.iter().filter(|e| matches!(e, Edit::Insert(_))).count();
    assert_eq!((kept, deleted, inserted), (2, 1, 1));
    let text = format_diff(&a, &b, &edits, 3);
    assert!(text.contains("-b"));
    assert!(text.contains("+x"));
}

#[test]
fn split_lines_like_str_lines() {
    assert_eq!(split_lines("a\r\nb\n"), lines(&["a", "b"]));
    assert_eq!(split_lines("a\n\nb"), lines(&["a", "", "b"]));
    assert_eq!(split_lines(""), Vec::<String>::new());
}

#[test]
fn three_way_merge_of_ids() {
    assert_eq!(merge3_oid(Some("a"), Some("b"), Some("a")), Some("b".to_string()));
    assert_eq!(merge3_oid(Some("a"), Some("a"), Some("c")), Some("c".to_string()));
    assert_eq!(merge3_oid(Some("a"), Some("b"), Some("c")), None);
    assert_eq!(merge3_oid(Some("a"), Some("b"), Some("c")), merge3_oid(Some("a"), Some("c"), Some("b")));
    assert_eq!(merge_modes(Some(0o100644), Some(0o100755), Some(0o100644)), (true, 0o100755));
    assert_eq!(merge_modes(Some(0o100644), Some(0o100755), Some(0o120000)).0, false);
}

#[test]
fn branch_names() {
    assert!(Refs::is_valid_branch_name("feature/login"));
    assert!(!Refs::is_valid_branch_name(""));
    assert!(!Refs::is_valid_branch_name(".hidden"));
    assert!(!Refs::is_valid_branch_name("a..b"));
    assert!(!Refs::is_valid_branch_name("topic.lock"));
    assert!(!Refs::is_valid_branch_name("with space"));
    assert!(!Refs::is_valid_branch_name("trailing/"));
}

#[test]
fn branch_creation_refused_when_present() {
    let refs = Refs::new(".ash");
    match refs.create_branch("topic", &"1".repeat(40), true) {
        Err(Error::Generic(m)) => assert_eq!(m, "A branch named 'topic' already exists."),
        _ => panic!("expected a refusal"),
    }
    match refs.create_branch("bad..name", &"1".repeat(40), false) {
        Err(Error::Generic(m)) => assert_eq!(m, "'bad..name' is not a valid branch name."),
        _ => panic!("expected a refusal"),
    }
    let w = refs.create_branch("topic", &"1".repeat(40), false).unwrap();
    assert_eq!(w.path, ".ash/refs/heads/topic");
    assert_eq!(w.content, format!("{}\n", "1".repeat(40)));
}

#[test]
fn sprint_metadata_round_trip() {
    let m = SprintMetadata::new_at("Sprint One".to_string(), 14, 1000);
    assert_eq!(m.to_branch_name(), "sprint-sprint-one");
    assert_eq!(m.end_timestamp(), 1000 + 14 * 86400);
    let text = m.encode();
    assert_eq!(text, "SPRINT:Sprint One:1000:14");
    let back = SprintMetadata::decode(&text).unwrap();
    assert_eq!(back.name, "Sprint One");
    assert_eq!(back.start_timestamp, 1000);
    assert_eq!(back.duration_days, 14);
    assert!(SprintMetadata::decode("SPRINT:x:notanumber:1").is_none());
}

#[test]
fn commit_check_reads_fields() {
    let body = format!("tree {}\nparent {}\nauthor A <a@b> 1 +0000\ncommitter C <c@d> 2 +0000\n\n  hello  \n", "t".repeat(40), "p".repeat(40));
    let mut data = format!("commit {}", body.len()).into_bytes();
    data.push(0);
    data.extend_from_slice(body.as_bytes());
    let f = check_commit(&data).unwrap();
    assert_eq!(f.tree_oid, "t".repeat(40));
    assert_eq!(f.parent_oid, Some("p".repeat(40)));
    assert_eq!(f.author, "A <a@b> 1 +0000");
    assert_eq!(f.committer, "C <c@d> 2 +0000");
    assert_eq!(f.message, "hello");
    assert!(f.size_matches);
    assert!(check_links(&f, true, true).is_ok());
    match check_links(&f, true, false) {
        Err(Error::Generic(m)) => assert_eq!(m, format!("Parent-ul {} nu există", "p".repeat(40))),
        _ => panic!("expected a missing parent"),
    }
}

#[test]
fn commit_check_errors() {
    match check_commit(b"commit 3") {
        Err(Error::Generic(m)) => assert_eq!(m, "Invalid object format: missing null byte"),
        _ => panic!(),
    }
    match check_commit(b"blob 3\0abc") {
        Err(Error::Generic(m)) => assert_eq!(m, "Invalid commit header: blob 3"),
        _ => panic!(),
    }
    match check_commit(b"commit x\0abc") {
        Err(Error::Generic(m)) => assert_eq!(m, "Invalid commit size in header"),
        _ => panic!(),
    }
    match check_commit(b"commit 5\0\nmsg\n") {
        Err(Error::Generic(m)) => assert_eq!(m, "Commit-ul nu conține o referință la tree"),
        _ => panic!(),
    }
    match missing_commit_error("abc") {
        Error::Generic(m) => assert_eq!(m, "Commit-ul abc nu există"),
        _ => panic!(),
    }
}

#[test]
fn tree_check_lists_entries() {
    let mut data = b"tree 0\0".to_vec();
    data.extend_from_slice(b"100644 a.txt\0");
    data.extend_from_slice(&[0xab; 20]);
    data.extend_from_slice(b"40000 dir\0");
    data.extend_from_slice(&[0x01; 20]);
    let entries = check_tree(&data).unwrap();
    assert_eq!(entries.len(), 2);
    assert_eq!(entries[0].name, "a.txt");
    assert_eq!(entries[0].entry_type, "blob");
    assert_eq!(entries[0].sha, "ab".repeat(20));
    assert_eq!(entries[1].mode, "40000");
    assert_eq!(entries[1].entry_type, "tree");
    assert!(!entries[1].exists);
    let mut short = b"tree 0\0100644 a\0".to_vec();
    short.extend_from_slice(&[1; 5]);
    match check_tree(&short) {
        Err(Error::Generic(m)) => assert_eq!(m, "Invalid tree entry: truncated SHA-1"),
        _ => panic!(),
    }
}

#[test]
fn trees_built_from_entries() {
    let entries = vec![
        DatabaseEntry::new("a.txt".to_string(), "1".repeat(40), "100644"),
        DatabaseEntry::new("src/lib.rs".to_string(), "2".repeat(40), "100644"),
        DatabaseEntry::new("src/x/y.rs".to_string(), "3".repeat(40), "100755"),
    ];
    let items = Tree::build_items(&entries).unwrap();
    assert_eq!(items.len(), 3);
    assert_eq!(items[2].parts, vec!["src", "x", "y.rs"]);
    let dirs = Tree::directories(&items);
    assert_eq!(dirs, vec![vec!["src".to_string(), "x".to_string()], vec!["src".to_string()], Vec::<String>::new()]);
    let mut stored: Vec<(Vec<String>, String)> = Vec::new();
    let sub = Tree::directory_tree(&dirs[0], &items, &stored);
    assert_eq!(sub.get_entries().len(), 1);
    stored.push((dirs[0].clone(), "4".repeat(40)));
    let src = Tree::directory_tree(&dirs[1], &items, &stored);
    let names: Vec<&str> = src.get_entries().iter().map(|(n, _)| n.as_str()).collect();
    assert_eq!(names, vec!["lib.rs", "x"]);
    stored.push((dirs[1].clone(), "5".repeat(40)));
    let root = Tree::directory_tree(&dirs[2], &items, &stored);
    let names: Vec<&str> = root.get_entries().iter().map(|(n, _)| n.as_str()).collect();
    assert_eq!(names, vec!["a.txt", "src"]);
}

#[test]
fn trees_refuse_a_file_used_as_directory() {
    let entries = vec![
        DatabaseEntry::new("a".to_string(), "1".repeat(40), "100644"),
        DatabaseEntry::new("a/b".to_string(), "2".repeat(40), "100644"),
    ];
    match Tree::build_items(&entries) {
        Err(Error::Generic(m)) => assert_eq!(m, "Path conflict: 'a' exists as a file but is also used as a directory in 'a/b'"),
        _ => panic!("expected a conflict"),
    }
}

#[test]
fn directory_entries_keep_the_directory_mode() {
    let e = DatabaseEntry::new("d".to_string(), "x".to_string(), "040000");
    assert_eq!(e.get_file_mode(), FileMode::DIRECTORY);
    assert!(FileMode::is_directory(e.get_file_mode()));
}

#[test]
fn unified_diff_has_leading_and_trailing_context() {
    let a = lines(&["a", "b", "c"]);
    let b = lines(&["a", "X", "c"]);
    let edits = vec![Edit::Equal(0, 0), Edit::Delete(1), Edit::Insert(1), Edit::Equal(2, 2)];
    assert_eq!(format_diff(&a, &b, &edits, 3), "@@ -1,3 +1,3 @@\n a\n-b\n+X\n c\n");
}

#[test]
fn distant_changes_make_separate_hunks() {
    let a = lines(&["1", "2", "3", "4", "5", "6"]);
    let b = lines(&["x", "2", "3", "4", "5", "y"]);
    let edits = vec![Edit::Delete(0), Edit::Insert(0), Edit::Equal(1, 1), Edit::Equal(2, 2),
        Edit::Equal(3, 3), Edit::Equal(4, 4), Edit::Delete(5), Edit::Insert(5)];
    assert_eq!(format_diff(&a, &b, &edits, 1),
        "@@ -1,2 +1,2 @@\n-1\n+x\n 2\n@@ -5,2 +5,2 @@\n 5\n-6\n+y\n");
}

#[test]
fn unsorted_entries_still_build() {
    let entries = vec![
        DatabaseEntry::new("src/lib.rs".to_string(), "2".repeat(40), "100644"),
        DatabaseEntry::new("a.txt".to_string(), "1".repeat(40), "100644"),
    ];
    let items = Tree::build_items(&entries).unwrap();
    assert_eq!(items.len(), 2);
    assert_eq!(items[0].name, "src/lib.rs");
}

#[test]
fn same_lines_diff_to_nothing() {
    let a = lines(&["x"]);
    assert_eq!(diff_lines(&a, &a), vec![Edit::Equal(0, 0)]);
    let b = lines(&["p", "q", "r"]);
    let edits = diff_lines(&b, &b);
    assert_eq!(edits, vec![Edit::Equal(0, 0), Edit::Equal(1, 1), Edit::Equal(2, 2)]);
    assert_eq!(format_diff(&b, &b, &edits, 3), "");
}

#[test]
fn identical_contents_report_identical_files() {
    let mut db = Database::new("objects".to_string());
    let mut blob = Blob::new(b"one\ntwo\n".to_vec());
    let oid = db.store(&mut blob).unwrap();
    let writes = db.take_writes();
    let stored = Some(writes[0].compressed.clone());
    let r = asheraflow::vcs::diff::diff::diff_with_database(&mut db, "f.txt", b"one\ntwo\n", &oid, stored, 3).unwrap();
    assert_eq!(r, "Files are identical");
}

#[test]
fn existing_object_files_are_not_written_again() {
    let mut db = Database::new("objects".to_string());
    db.store(&mut Blob::new(b"a".to_vec())).unwrap();
    db.store(&mut Blob::new(b"b".to_vec())).unwrap();
    db.store(&mut Blob::new(b"a".to_vec())).unwrap();
    let writes = db.take_writes();
    let chosen = asheraflow::vcs::database::database::writes_to_make(&writes, &vec![false, true, false]);
    assert_eq!(chosen, vec![0]);
    let chosen = asheraflow::vcs::database::database::writes_to_make(&writes, &vec![true, false, false]);
    assert_eq!(chosen, vec![1]);
}

#[test]
fn sprint_metadata_is_stored_as_an_object() {
    let manager = BranchMetadataManager::new(".");
    let mut db = Database::new("objects".to_string());
    let meta = SprintMetadata::new_at("Sprint 1".to_string(), 14, 1_700_000_000);
    match manager.store_sprint_metadata(&mut db, "sprint1", &meta, None) {
        Err(Error::Generic(m)) => assert_eq!(m, "HEAD reference not found"),
        _ => panic!("expected an error without HEAD"),
    }
    let w = manager.store_sprint_metadata(&mut db, "sprint1", &meta, Some("c".repeat(40))).unwrap();
    assert_eq!(w.meta_ref, "refs/meta/sprint1");
    assert_eq!(w.sprint_branch, "sprint-sprint1");
    assert_eq!(w.content, format!("{}\n", w.oid));
    assert_eq!(w.start_oid, "c".repeat(40));
    let text = meta.encode();
    let loaded = Ok(StoredObject::Blob(Blob::new(text.into_bytes())));
    let back = manager.get_sprint_metadata(Some(loaded)).unwrap().unwrap();
    assert_eq!((back.name.as_str(), back.start_timestamp, back.duration_days), ("Sprint 1", 1_700_000_000, 14));
    assert!(manager.get_sprint_metadata(None).unwrap().is_none());
    match manager.get_sprint_metadata(Some(Ok(StoredObject::Blob(Blob::new(b"nope".to_vec()))))) {
        Err(Error::Generic(m)) => assert_eq!(m, "Invalid metadata object type"),
        _ => panic!("expected an error"),
    }
}

#[test]
fn detached_head_has_no_branch() {
    let manager = BranchMetadataManager::new(".");
    match manager.get_current_branch(&Reference::Direct("a".repeat(40))) {
        Err(Error::Generic(m)) => assert_eq!(m, "HEAD is in a detached state"),
        _ => panic!("expected an error"),
    }
}

#[test]
fn author_lines_split_greedily() {
    let a = Author::parse("Ann Lee <ann@x.org> 1700000000 +0000").unwrap();
    assert_eq!((a.name.as_str(), a.email.as_str(), a.timestamp), ("Ann Lee", "ann@x.org", 1700000000));
    let b = Author::parse("A <b> 1 <c> 2 +0100").unwrap();
    assert_eq!((b.name.as_str(), b.email.as_str(), b.timestamp), ("A <b> 1", "c", 2));
    assert!(Author::parse("no email here").is_err());
    assert!(Author::parse("A <b> 12\n +0000").is_err());
}

#[test]
fn branch_name_rules() {
    assert!(Refs::is_valid_branch_name("feature/x-1"));
    for bad in ["", ".hidden", "a/.b", "a..b", "/a", "a/", "x.lock", "a@{b", "a b", "a*b", "a:b", "a?b", "a[b", "a\\b", "a^b", "a~b", "a\u{7f}"] {
        assert!(!Refs::is_valid_branch_name(bad), "{}", bad);
    }
}

#[test]
fn diff_scripts_are_shortest() {
    let a = lines(&["a", "b", "c", "d"]);
    let b = lines(&["b", "c", "d", "e"]);
    let edits = diff_lines(&a, &b);
    let kept = edits.iter().filter(|e| matches!(e, Edit::Equal(_, _))).count();
    assert_eq!(kept, 3);
    let a = lines(&["x", "y", "x", "y"]);
    let b = lines(&["y", "x", "y", "x"]);
    let kept = diff_lines(&a, &b).iter().filter(|e| matches!(e, Edit::Equal(_, _))).count();
    assert_eq!(kept, 3);
    let a = lines(&["p"]);
    let b = lines(&["q"]);
    assert_eq!(diff_lines(&a, &b), vec![Edit::Delete(0), Edit::Insert(0)]);
}

#[test]
fn head_reads_back_what_was_written() {
    let refs = Refs::new(".ash");
    let w = refs.update_head(&"a".repeat(40));
    assert_eq!(refs.read_head(Some(Some(w.content.clone()))).unwrap(), Some("a".repeat(40)));
    assert_eq!(refs.read_head(None).unwrap(), None);
}

#[test]
fn merge_sides_take_our_change_or_their_start() {
    use_merge_sides();
}

fn use_merge_sides() {
    let e1 = DatabaseEntry::new("f".to_string(), "1".repeat(40), "100644");
    let e2 = DatabaseEntry::new("f".to_string(), "2".repeat(40), "100644");
    let ours = vec![asheraflow::vcs::merge::resolve::DiffChange { path: "f".to_string(), old: Some(e1.clone()), new: Some(e2.clone()) }];
    let (base, left) = asheraflow::commands::merge::MergeCommand::merge_sides(&ours, "f", &None);
    assert_eq!(base.unwrap().oid, "1".repeat(40));
    assert_eq!(left.unwrap().oid, "2".repeat(40));
    let (base, left) = asheraflow::commands::merge::MergeCommand::merge_sides(&ours, "g", &Some(e1.clone()));
    assert_eq!(base.unwrap().oid, "1".repeat(40));
    assert_eq!(left.unwrap().oid, "1".repeat(40));
}

#[test]
fn common_ancestors_in_order() {
    let mine = vec!["c3".to_string(), "c2".to_string(), "c1".to_string()];
    let theirs = vec![vec!["d1".to_string(), "c2".to_string(), "c1".to_string()]];
    assert_eq!(asheraflow::vcs::merge::bases::common_of(&mine, &theirs), vec!["c2".to_string(), "c1".to_string()]);
}

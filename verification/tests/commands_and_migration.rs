use asheraflow::errors::error::Error;
use asheraflow::vcs::database::entry::DatabaseEntry;
use asheraflow::vcs::merge::resolve::DiffChange;
use asheraflow::vcs::index::index::Index;
use asheraflow::vcs::index::entry::FileStat;
use asheraflow::vcs::inspector::ChangeType;
use asheraflow::vcs::repository::migration::{Migration, PathObservation, WorkspaceState, ConflictType};
use asheraflow::vcs::workspace::{Workspace, StartKind, FromListing};
use asheraflow::vcs::sprint::sprint::{Task, TaskStatus};
use asheraflow::commands::branch::BranchCommand;
use asheraflow::commands::checkout::CheckoutCommand;
use asheraflow::commands::init::InitCommand;
use asheraflow::commands::reset::{ResetCommand, ResetMode, IndexReset};
use asheraflow::commands::revert::RevertCommand;
use asheraflow::commands::sprint_advance::SprintAdvanceCommand;
use asheraflow::commands::sprint_velocity::SprintVelocityCommand;
use asheraflow::commands::sprint_commitmap::SprintCommitMapCommand;
use asheraflow::commands::sprint_view::{SprintViewCommand, SprintApp, SprintData};
use asheraflow::commands::diff::DiffCommand;
use asheraflow::commands::validate::{ValidateCommand, ValidationReport, ObjectStats};

fn entry(name: &str, oid: &str) -> DatabaseEntry {
    DatabaseEntry::new(name.to_string(), oid.to_string(), "100644")
}

fn nothing_there() -> PathObservation {
    PathObservation { differs_from_index: None, state: WorkspaceState::Missing }
}

fn generic(e: Error) -> String {
    match e {
        Error::Generic(m) => m,
        other => panic!("unexpected error {:?}", other),
    }
}

#[test]
fn migration_plans_deletions_directories_and_writes() {
    let diff = vec![
        DiffChange { path: "dir/sub/new.txt".to_string(), old: None, new: Some(entry("new.txt", &"1".repeat(40))) },
        DiffChange { path: "gone/old.txt".to_string(), old: Some(entry("old.txt", &"2".repeat(40))), new: None },
        DiffChange { path: "keep.txt".to_string(), old: Some(entry("keep.txt", &"3".repeat(40))), new: Some(entry("keep.txt", &"4".repeat(40))) },
    ];
    let mut m = Migration::new(diff);
    let index = Index::new("index");
    let obs = vec![nothing_there(), nothing_there(), nothing_there()];
    let plan = m.apply_changes(&index, &Vec::new(), obs).unwrap();
    assert_eq!(plan.deletions, vec!["gone/old.txt"]);
    assert_eq!(plan.directories, vec!["dir", "dir/sub"]);
    let written: Vec<&str> = plan.writes.iter().map(|w| w.0.as_str()).collect();
    assert_eq!(written, vec!["dir/sub/new.txt", "keep.txt"]);
    assert!(plan.writes.iter().all(|w| !w.2));
    assert_eq!(plan.cleanup, vec!["gone"]);
    assert!(m.errors.is_empty());
}

#[test]
fn migration_refuses_to_overwrite_untracked_files() {
    let diff = vec![DiffChange { path: "a.txt".to_string(), old: None, new: Some(entry("a.txt", &"1".repeat(40))) }];
    let mut m = Migration::new(diff);
    let index = Index::new("index");
    let obs = vec![PathObservation { differs_from_index: None, state: WorkspaceState::File }];
    let r = m.apply_changes(&index, &Vec::new(), obs);
    assert_eq!(generic(r.err().unwrap()), "Checkout failed due to conflicts");
    assert_eq!(m.errors.len(), 1);
    assert_eq!(m.errors[0], "The following untracked working tree files would be overwritten by checkout:\n\ta.txt\nPlease move or remove them before you switch branches.");
}

#[test]
fn migration_refuses_with_uncommitted_changes() {
    let diff = vec![DiffChange { path: "a.txt".to_string(), old: None, new: Some(entry("a.txt", &"1".repeat(40))) }];
    let mut m = Migration::new(diff);
    let index = Index::new("index");
    let changes = vec![("b.txt".to_string(), ChangeType::Modified), ("c.txt".to_string(), ChangeType::Untracked)];
    let r = m.apply_changes(&index, &changes, vec![nothing_there()]);
    assert!(r.is_err());
    assert_eq!(m.errors[0], "You have uncommitted changes in your working tree:\n\tb.txt\nPlease commit your changes or stash them before you switch branches.");
}

#[test]
fn migration_reports_a_failed_look_at_the_workspace() {
    let diff = vec![DiffChange { path: "a.txt".to_string(), old: None, new: Some(entry("a.txt", &"1".repeat(40))) }];
    let mut m = Migration::new(diff);
    let index = Index::new("index");
    let obs = vec![PathObservation { differs_from_index: None, state: WorkspaceState::StatFailed(Error::IO("denied".to_string())) }];
    match m.apply_changes(&index, &Vec::new(), obs) {
        Err(Error::IO(m)) => assert_eq!(m, "denied"),
        _ => panic!("expected the stat failure"),
    }
}

#[test]
fn migration_sees_stale_indexed_files() {
    let diff = vec![DiffChange { path: "a.txt".to_string(), old: Some(entry("a.txt", &"1".repeat(40))), new: Some(entry("a.txt", &"2".repeat(40))) }];
    let mut m = Migration::new(diff);
    let mut index = Index::new("index");
    let stat = FileStat { permissions: 0o100644, ctime: 0, ctime_nsec: 0, mtime: 0, mtime_nsec: 0, size: 1 };
    index.add("a.txt", &"3".repeat(40), &stat).unwrap();
    let r = m.apply_changes(&index, &Vec::new(), vec![nothing_there()]);
    assert!(r.is_err());
    assert!(m.errors[0].starts_with("Your local changes to the following files would be overwritten by checkout:"));
}

#[test]
fn conflict_text_sorts_paths() {
    let t = Migration::conflict_text(ConflictType::StaleDirectory, &vec!["b".to_string(), "a".to_string()]);
    assert_eq!(t, "Updating the following directories would lose untracked files in them:\n\ta\n\tb\n\n");
}

#[test]
fn ignore_patterns_from_file() {
    let p = Workspace::ignore_patterns(Some("# comment\n*.log\n  build/  \n\n*.log\n"));
    let mut sorted = p.clone();
    sorted.sort();
    assert_eq!(sorted, vec!["*.log", ".ash", ".ash/*", "build/"]);
    assert_eq!(Workspace::ignore_patterns(None).len(), 2);
}

#[test]
fn pattern_matching() {
    assert!(Workspace::matches_pattern("a.txt", "a.txt"));
    assert!(Workspace::matches_pattern("debug.log", "*.log"));
    assert!(!Workspace::matches_pattern("debug.logs", "*.log"));
    assert!(Workspace::matches_pattern("build/out.o", "build/"));
    assert!(!Workspace::matches_pattern("fooXbar1", "foo.bar*"));
    assert!(Workspace::matches_pattern(".ash/HEAD", ".ash/*"));
    assert!(!Workspace::matches_pattern("a.txt", "b.txt"));
}

#[test]
fn walk_lists_files_depth_first() {
    let ws = Workspace::new("/repo");
    let mut walk = ws.list_files(Some("*.tmp\n"));
    assert_eq!(walk.advance(), Some("".to_string()));
    walk.feed("", Ok(vec![("a.txt".to_string(), false), (".ash".to_string(), true), ("src".to_string(), true), ("x.tmp".to_string(), false), ("z.txt".to_string(), false)])).unwrap();
    assert_eq!(walk.advance(), Some("src".to_string()));
    walk.feed("src", Ok(vec![("main.rs".to_string(), false)])).unwrap();
    assert_eq!(walk.advance(), None);
    assert_eq!(walk.into_files(), vec!["a.txt", "src/main.rs", "z.txt"]);
}

#[test]
fn walk_stops_on_a_read_failure() {
    let ws = Workspace::new("/repo");
    let mut walk = ws.list_files(None);
    walk.advance();
    let e = Workspace::access_error("open", "/repo", true, Error::IO("x".to_string()));
    match walk.feed("", Err(e)) {
        Err(Error::Generic(m)) => assert_eq!(m, "open('/repo'): Permission denied"),
        _ => panic!(),
    }
}

#[test]
fn listing_from_a_path() {
    let ws = Workspace::new("/repo");
    let indexed = vec!["src/a.rs".to_string(), "src/b.rs".to_string(), "srcx".to_string(), "top.txt".to_string()];
    match ws.list_files_from("src", StartKind::Directory, &indexed, None).unwrap() {
        FromListing::Walk(mut walk, expected) => {
            assert_eq!(expected, vec!["src/a.rs", "src/b.rs"]);
            assert_eq!(walk.advance(), Some("src".to_string()));
            walk.feed("src", Ok(vec![("a.rs".to_string(), false)])).unwrap();
            assert_eq!(walk.advance(), None);
            assert_eq!(walk.missing(&expected), vec!["src/b.rs"]);
        },
        FromListing::Single(_) => panic!(),
    }
    match ws.list_files_from("top.txt", StartKind::File, &indexed, None).unwrap() {
        FromListing::Single(found) => assert_eq!(found, vec!["top.txt"]),
        _ => panic!(),
    }
    match ws.list_files_from("nope", StartKind::Missing, &indexed, None) {
        Err(Error::InvalidPath(m)) => assert_eq!(m, "Path '/repo/nope' does not exist"),
        _ => panic!(),
    }
    match ws.list_files_from("/elsewhere/x", StartKind::File, &indexed, None) {
        Err(Error::InvalidPath(m)) => assert_eq!(m, "Cannot make '/elsewhere/x' relative to repository root"),
        _ => panic!(),
    }
    assert_eq!(Workspace::expected_files("", &indexed).len(), 4);
}

#[test]
fn branch_command_messages() {
    assert_eq!(generic(BranchCommand::check_name("").err().unwrap()), "Branch name is required");
    assert!(BranchCommand::check_name("topic").is_ok());
    assert_eq!(BranchCommand::created_message("topic", "0123456789abcdef"), "Created branch 'topic' at 01234567");
    assert_eq!(BranchCommand::start_oid(None, Some("h".to_string())).unwrap(), "h");
    assert_eq!(BranchCommand::start_oid(Some("r".to_string()), Some("h".to_string())).unwrap(), "r");
    assert_eq!(generic(BranchCommand::start_oid(None, None).err().unwrap()), "Failed to resolve HEAD - repository may be empty");
}

#[test]
fn checkout_command_messages() {
    assert_eq!(CheckoutCommand::switched_message("abcdef0123"), "Switched to commit abcdef01");
    assert_eq!(CheckoutCommand::failure_report(&vec!["one".to_string()]), vec!["error: one", "Aborting"]);
    assert_eq!(generic(CheckoutCommand::conflicts_error()), "Checkout failed due to conflicts");
}

#[test]
fn init_command_layout() {
    assert_eq!(InitCommand::subdirectories("/r/.ash"), vec!["/r/.ash/objects", "/r/.ash/refs"]);
    assert_eq!(InitCommand::initialized_message("/r/.ash"), "Initialized empty Ash repository in /r/.ash");
}

#[test]
fn reset_modes_and_plans() {
    assert_eq!(ResetCommand::mode(true, false, true), ResetMode::Hard);
    assert_eq!(ResetCommand::mode(true, false, false), ResetMode::Soft);
    assert_eq!(ResetCommand::mode(false, false, false), ResetMode::Mixed);
    let p = ResetCommand::plan(ResetMode::Mixed, true);
    assert_eq!(p.index, IndexReset::GivenPaths);
    assert!(!p.move_head);
    let p = ResetCommand::plan(ResetMode::Hard, false);
    assert!(p.working_tree && p.move_head && !p.ignore_paths);
    assert_eq!(ResetCommand::target("", Some("x".to_string()), "head"), "head");
    assert_eq!(ResetCommand::target("HEAD~1", Some("x".to_string()), "head"), "x");
    assert_eq!(generic(ResetCommand::not_commit_error("ab")), "Object ab is not a commit");
}

#[test]
fn revert_command_texts() {
    assert_eq!(RevertCommand::revert_commit_message("  Add thing \n", "abc"), "Revert \"Add thing\"\n\nThis reverts commit abc.");
    assert_eq!(RevertCommand::short_oid("0123456789"), "0123456");
    assert_eq!(RevertCommand::parent_name("abc"), "parent of abc");
    assert!(RevertCommand::check_for_conflicts(&Vec::new()).is_ok());
    assert_eq!(generic(RevertCommand::check_for_conflicts(&vec!["a".to_string()]).err().unwrap()),
        "Cannot revert with uncommitted changes. Please commit or stash them first:\n  a\n");
    assert!(RevertCommand::is_conflict_failure(&Error::Generic("Automatic merge failed; fix conflicts".to_string())));
    assert!(!RevertCommand::is_conflict_failure(&Error::Generic("other".to_string())));
    assert_eq!(generic(RevertCommand::no_parent_error("abc")), "Cannot revert abc - it has no parent");
    assert_eq!(RevertCommand::orig_head_target(" abc\n"), "abc");
}

#[test]
fn sprint_advance_plans_from_dates() {
    let p = SprintAdvanceCommand::plan("Sprint Two", "1970-01-02", "1970-01-16").ok().unwrap();
    assert_eq!(p.duration_days, 14);
    assert_eq!(p.metadata.start_timestamp, 86400);
    assert_eq!(p.branch, "sprint-sprint-two");
    assert_eq!(generic(SprintAdvanceCommand::plan("x", "bad", "1970-01-02").err().unwrap()), "Invalid start date format. Use YYYY-MM-DD");
    assert_eq!(generic(SprintAdvanceCommand::plan("x", "1970-01-02", "bad").err().unwrap()), "Invalid end date format. Use YYYY-MM-DD");
    assert_eq!(generic(SprintAdvanceCommand::plan("x", "1970-01-02", "1970-01-02").err().unwrap()), "End date must be after start date");
    assert!(SprintAdvanceCommand::overlaps(10, 20));
    assert!(!SprintAdvanceCommand::overlaps(20, 20));
}

fn task(id: &str, points: Option<u32>, status: TaskStatus) -> Task {
    let mut t = Task::new_at(id.to_string(), "d".to_string(), points, 0);
    t.status = status;
    t
}

#[test]
fn velocity_sums_points() {
    let tasks = vec![task("1", Some(3), TaskStatus::Done), task("2", Some(5), TaskStatus::InProgress), task("3", None, TaskStatus::Done)];
    assert_eq!(SprintVelocityCommand::sprint_points(&tasks), (8, 3));
    let all: Vec<u32> = (0..13).collect();
    assert_eq!(SprintVelocityCommand::recent_sprints(all), (3..13).collect::<Vec<u32>>());
    assert_eq!(SprintVelocityCommand::recent_sprints(vec![1, 2]), vec![1, 2]);
}

#[test]
fn commit_map_counts_by_day_and_hour() {
    let m = SprintCommitMapCommand::heatmap(86400, 3 * 86400, &vec![86400 + 3600, 86400 + 3700, 2 * 86400 + 23 * 3600, 5 * 86400]);
    assert_eq!(m.first_day, 1);
    assert_eq!(m.days.len(), 3);
    assert_eq!(m.days[0][1], 2);
    assert_eq!(m.days[1][23], 1);
    assert_eq!(m.days[2].iter().sum::<u32>(), 0);
    assert_eq!(SprintCommitMapCommand::scroll_down(4, 1, 4), 4);
    assert_eq!(SprintCommitMapCommand::scroll_up(0, 1), 0);
    assert_eq!(SprintCommitMapCommand::max_scroll(3, 10), 0);
}

fn sprint(name: &str, tasks: Vec<Task>) -> SprintData {
    SprintData { name: name.to_string(), branch: format!("sprint-{}", name), is_active: false, is_current: false, expanded: false, tasks, start_date: None, end_date: None }
}

#[test]
fn sprint_view_navigation() {
    let mut app = SprintApp::new(vec![sprint("a", vec![task("T1", None, TaskStatus::Todo), task("T2", None, TaskStatus::Todo)]), sprint("b", vec![])], "main".to_string());
    assert_eq!(app.sprints.selected, Some(0));
    app.enter_task_mode();
    assert!(app.task_mode && app.sprints.items[0].expanded);
    app.next_item();
    app.next_item();
    assert_eq!(app.task_index, 1);
    assert_eq!(app.task_to_check_out(), Some("sprint-a-task-T2".to_string()));
    app.previous_item();
    assert_eq!(app.task_index, 0);
    app.exit_task_mode();
    app.next_item();
    assert_eq!(app.sprints.selected, Some(1));
    app.next_item();
    assert_eq!(app.sprints.selected, Some(0));
    app.previous_item();
    assert_eq!(app.sprints.selected, Some(1));
    app.sprint_checked_out("sprint-b");
    assert!(app.sprints.items[1].is_current && !app.sprints.items[0].is_current);
    app.task_checked_out("sprint-a-task-T1".to_string());
    assert!(!app.sprints.items[1].is_current);
    assert_eq!(app.current_branch, "sprint-a-task-T1");
}

#[test]
fn sprint_view_entries() {
    let (name, branch, active, current) = SprintViewCommand::sprint_entry("sprint-one", Some("sprint-one"), "sprint-one");
    assert_eq!((name.as_str(), branch.as_str(), active, current), ("one", "sprint-one", true, true));
    let (name, branch, _, current) = SprintViewCommand::sprint_entry("two", None, "main");
    assert_eq!((name.as_str(), branch.as_str(), current), ("two", "sprint-two", false));
    assert_eq!(SprintViewCommand::period_text(Some("2024-01-01"), Some("2024-01-14")), " (2024-01-01 - 2024-01-14)");
    assert_eq!(SprintViewCommand::period_text(None, Some("2024-01-14")), " (until 2024-01-14)");
    assert_eq!(SprintViewCommand::period_text(None, None), "");
}

#[test]
fn diff_command_texts() {
    let lines = vec!["x".to_string(), "y".to_string()];
    assert_eq!(DiffCommand::deleted_file("a.txt", "100644", &lines),
        "diff --ash a/a.txt b/a.txt\ndeleted file mode 100644\n--- a/a.txt\n+++ /dev/null\n-x\n-y\n");
    assert_eq!(DiffCommand::new_file("a.txt", "100644", &lines),
        "diff --ash a/a.txt b/a.txt\nnew file mode 100644\n--- /dev/null\n+++ b/a.txt\n+x\n+y\n");
    assert_eq!(DiffCommand::removed_from_index("a.txt", &vec![]), "diff --ash a/a.txt b/a.txt\ndeleted file\n--- a/a.txt\n+++ /dev/null\n");
    assert_eq!(DiffCommand::unknown_path_line("q", true), "error: path 'q' is untracked");
    assert_eq!(DiffCommand::unknown_path_line("q", false), "error: path 'q' does not exist");
    assert_eq!(DiffCommand::collect_files_from_tree("").len(), 1);
    assert!(DiffCommand::collect_files_from_tree("sub").is_empty());
}

#[test]
fn validate_command_report() {
    let report = ValidationReport {
        repo_path: ".".to_string(), ash_dirs_valid: false, index_entries: 2, index_valid: true, head_commit: None,
        object_stats: ObjectStats { total: 1, blobs: 1, trees: 0, commits: 0, unknown: 0 }, issues: vec![], is_valid: false,
    };
    assert_eq!(generic(ValidateCommand::outcome(&report).err().unwrap()), "Repository validation failed. See above for details.");
    assert_eq!(ValidateCommand::recommendations(&report), vec!["- Repository structure is invalid. Consider re-initializing with 'ash init'."]);
    let lines = ValidateCommand::state_lines(&report, "2");
    assert_eq!(lines[1], "Repository structure: Invalid ✗");
    assert_eq!(lines[4], "HEAD commit: None (no commits yet)");
    assert!(!ValidateCommand::shows_unknown(&report.object_stats));
}

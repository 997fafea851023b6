use asheraflow::cli::parser::CliParser;
use asheraflow::cli::args::Command;
use asheraflow::commands::add::AddCommand;
use asheraflow::commands::task::{TaskCreateCommand, TaskCompleteCommand};
use asheraflow::commands::task_list::{TaskApp, TaskInfo, FilterMode};
use asheraflow::commands::burndown::SprintBurndownCommand;
use asheraflow::commands::merge::MergeCommand;
use asheraflow::vcs::editor::Editor;
use asheraflow::vcs::sprint::sprint::{Task, TaskStatus};
use asheraflow::errors::error::Error;

fn args(v: &[&str]) -> Vec<String> {
    v.iter().map(|s| s.to_string()).collect()
}

#[test]
fn cli_reads_commands() {
    match CliParser::parse(args(&["ash", "init"])).unwrap().command {
        Command::Init { path } => assert_eq!(path, "."),
        _ => panic!(),
    }
    match CliParser::parse(args(&["ash", "ADD", "a.txt", "b.txt"])).unwrap().command {
        Command::Add { paths } => assert_eq!(paths, vec!["a.txt", "b.txt"]),
        _ => panic!(),
    }
    match CliParser::parse(args(&["ash", "add"])) {
        Err(Error::Generic(m)) => assert_eq!(m, "File path is required for add command"),
        _ => panic!(),
    }
    match CliParser::parse(args(&["ash"])) {
        Err(Error::Generic(m)) => assert_eq!(m, "Usage: ash <command> [options]"),
        _ => panic!(),
    }
}

#[test]
fn add_summary_wording() {
    assert_eq!(AddCommand::summary_message(1, 2, 3, 0), "1 new file and 2 modified files added to index");
    assert_eq!(AddCommand::summary_message(0, 0, 2, 1), "2 files added to index, 1 file unchanged");
}

#[test]
fn task_names() {
    assert_eq!(TaskCreateCommand::task_branch_name("one", "T-1"), "sprint-one-task-T-1");
    assert!(TaskCreateCommand::is_valid_task_id("T_1-a"));
    assert!(!TaskCreateCommand::is_valid_task_id("T 1"));
    assert_eq!(TaskCompleteCommand::merge_message("T1", "sprint-one"), "Merge task/T1 into sprint-one");
}

#[test]
fn editor_keeps_message_lines() {
    assert_eq!(Editor::remove_notes("Subject\n# a note\n\nBody\n"), Some("Subject\n\nBody\n".to_string()));
    assert_eq!(Editor::remove_notes("# only notes\n   \n"), None);
    let mut e = Editor::new("MSG".to_string(), Some("code --wait".to_string()));
    e.puts("hello");
    e.note("note one\nnote two");
    assert_eq!(e.content, "hello\n# note one\n# note two\n");
    let (cmd, rest) = e.invocation().unwrap();
    assert_eq!(cmd, "code");
    assert_eq!(rest, vec!["--wait", "MSG"]);
    let bad = Editor::new("MSG".to_string(), Some("vim 'unclosed".to_string()));
    match bad.invocation() {
        Err(Error::Generic(m)) => assert_eq!(m, "Invalid editor command"),
        _ => panic!(),
    }
}

fn info(id: &str, status: TaskStatus, sprint: Option<&str>) -> TaskInfo {
    TaskInfo { id: id.to_string(), description: String::new(), story_points: None, status, sprint_branch: sprint.map(|s| s.to_string()) }
}

#[test]
fn task_list_filters() {
    let tasks = vec![
        info("1", TaskStatus::Todo, Some("sprint-a")),
        info("2", TaskStatus::InProgress, Some("sprint-b")),
        info("3", TaskStatus::InProgress, Some("sprint-a")),
    ];
    let mut app = TaskApp::new(tasks, "sprint-a".to_string());
    assert_eq!(app.filter_mode, FilterMode::CurrentSprint);
    assert_eq!(app.get_filtered_indices(), vec![0, 2]);
    app.next_filter_mode();
    assert_eq!(app.get_filtered_indices(), vec![1, 2]);
    app.next_filter_mode();
    assert_eq!(app.get_filtered_indices(), vec![0, 1, 2]);
    assert_eq!(app.filter_label(), "Filter: All Tasks");
}

fn done_at(id: &str, points: Option<u32>, when: u64) -> Task {
    let mut t = Task::new_at(id.to_string(), String::new(), points, 0);
    t.status = TaskStatus::Done;
    t.completed_at = Some(when);
    t
}

#[test]
fn burndown_progress_never_decreases() {
    let day = 86400u64;
    let tasks = vec![done_at("1", Some(3), 10 * day + 5), done_at("2", None, 12 * day), Task::new_at("3".to_string(), String::new(), Some(8), 0)];
    let progress = SprintBurndownCommand::get_daily_progress(&tasks, 10 * day, 3);
    assert_eq!(progress, vec![(0, 3), (1, 3), (2, 4), (3, 4)]);
    assert!(progress.windows(2).all(|w| w[0].1 <= w[1].1));
    assert_eq!(SprintBurndownCommand::total_story_points(&tasks), 11);
    assert_eq!(SprintBurndownCommand::sprint_days(10 * day, 13 * day, 11 * day), (3, 1, 2));
    assert_eq!(SprintBurndownCommand::branch_for_name("Alpha"), "sprint-alpha");
}

#[test]
fn merge_command_texts() {
    assert_eq!(MergeCommand::short_oid("0123456789"), "01234567");
    assert_eq!(MergeCommand::short_oid("abc"), "abc");
    assert_eq!(MergeCommand::commit_message(None, "topic"), "Merge branch 'topic'");
    assert!(MergeCommand::require_head(None).is_err());
}

fn sprint_with(tasks: Vec<Task>) -> asheraflow::vcs::sprint::sprint::Sprint {
    let mut s = asheraflow::vcs::sprint::sprint::Sprint::new_at("S".to_string(), 7, 1000);
    for t in tasks {
        s.add_task(t).unwrap();
    }
    s
}

#[test]
fn sprint_task_errors_name_the_task() {
    let mut s = sprint_with(vec![Task::new_at("t1".to_string(), "d".to_string(), Some(3), 1000)]);
    match s.add_task(Task::new_at("t1".to_string(), "again".to_string(), None, 1000)) {
        Err(Error::Generic(m)) => assert_eq!(m, "Task with ID t1 already exists"),
        _ => panic!("expected a duplicate error"),
    }
    match s.complete_task_at("zz", 2000) {
        Err(Error::Generic(m)) => assert_eq!(m, "Task with ID zz not found"),
        _ => panic!("expected not found"),
    }
    match s.get_task_duration("zz") {
        Err(Error::Generic(m)) => assert_eq!(m, "Task with ID zz not found"),
        _ => panic!("expected not found"),
    }
    s.complete_task_at("t1", 2000).unwrap();
    assert_eq!(s.tasks[0].status, TaskStatus::Done);
    assert_eq!(s.tasks[0].started_at, Some(2000));
    assert_eq!(s.completed_story_points, 3);
    match s.complete_task_at("t1", 3000) {
        Err(Error::Generic(m)) => assert_eq!(m, "Task t1 is already completed"),
        _ => panic!("expected already completed"),
    }
}

#[test]
fn complete_task_marks_the_task_done() {
    let mut s = sprint_with(vec![Task::new_at("t2".to_string(), "d".to_string(), Some(5), 1000)]);
    s.complete_task("t2").unwrap();
    assert_eq!(s.tasks[0].status, TaskStatus::Done);
    assert!(s.tasks[0].completed_at.is_some());
    assert_eq!(s.tasks[0].started_at, s.tasks[0].completed_at);
    assert_eq!(s.completed_story_points, 5);
}

#[test]
fn task_creation_needs_an_active_sprint() {
    match TaskCreateCommand::require_active_sprint(None) {
        Err(Error::Generic(m)) => assert_eq!(m, "No active sprint found. Start a sprint first with 'ash sprint start'."),
        _ => panic!("expected an error"),
    }
}

#[test]
fn to_lowercase_maps_ascii_letters() {
    assert_eq!(asheraflow::stdtext::to_lowercase("Sprint A-1_z"), "sprint a-1_z");
}

#[test]
fn merge_bases_keep_the_newest_common_ancestor() {
    use_bases();
}

fn use_bases() {
    // c1 is an ancestor of c2: the common ancestors of c1 and {c2} include c1.
    let mut bases = asheraflow::vcs::merge::bases::Bases::new(vec!["c1".to_string(), "c2".to_string()]);
    let (c, others) = bases.next_question().unwrap();
    assert_eq!((c.as_str(), others.clone()), ("c1", vec!["c2".to_string()]));
    bases.answer(&vec!["c1".to_string(), "c0".to_string()]);
    assert!(bases.next_question().is_none());
    assert_eq!(bases.result(), vec!["c2".to_string()]);
}

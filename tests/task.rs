use base::{State, Task};

#[test]
fn test_parse_simple() {
    let task: Task = Task::parse("* [x] Water plants").expect("Could not parse task");
    assert_eq!(task.state, State::Completed);
    assert_eq!(task.name, "Water plants");
}

#[test]
fn test_parse_alternative() {
    let task: Task = Task::parse("- [ ] Water plants").expect("Could not parse task");
    assert_eq!(task.state, State::Incomplete);
    assert_eq!(task.name, "Water plants");
}

#[test]
fn test_parse_in_progress() {
    let task: Task = Task::parse("-[~]Water plants").expect("Could not parse task");
    assert_eq!(task.state, State::InProgress);
    assert_eq!(task.name, "Water plants");
}

#[test]
fn test_parse_in_blocked() {
    let task: Task = Task::parse("-[#]Water plants").expect("Could not parse task");
    assert_eq!(task.state, State::Blocked);
    assert_eq!(task.name, "Water plants");
}

#[test]
fn test_parse_messy() {
    let task: Task = Task::parse("-[ ]Water plants").expect("Could not parse task");
    assert_eq!(task.state, State::Incomplete);
    assert_eq!(task.name, "Water plants");
}

#[test]
fn test_add_subtask() {
    let mut task: Task = Task::parse("* [ ] Main task").unwrap();
    let subtask: Task = Task::parse("* [ ] Subtask 1").unwrap();

    task.add_subtask(subtask);
    assert_eq!(task.subtasks.len(), 1);
    assert_eq!(task.subtasks[0].name, "Subtask 1");
}

#[test]
fn test_auto_complete_when_all_subtasks_complete() {
    let mut task: Task = Task::parse("* [ ] Main task").unwrap();
    let subtask1: Task = Task::parse("* [ ] Subtask 1").unwrap();
    let subtask2: Task = Task::parse("* [ ] Subtask 2").unwrap();

    task.add_subtask(subtask1);
    task.add_subtask(subtask2);

    assert_eq!(task.state, State::Incomplete);

    task.mark_subtask_complete(0);
    assert_eq!(task.state, State::Incomplete);

    task.mark_subtask_complete(1);
    assert_eq!(task.state, State::Completed);
}

#[test]
fn test_auto_in_progress_when_any_subtask_in_progress() {
    let mut task: Task = Task::parse("* [ ] Main task").unwrap();
    let mut subtask1: Task = Task::parse("* [ ] Subtask 1").unwrap();
    let subtask2: Task = Task::parse("* [ ] Subtask 2").unwrap();

    subtask1.state = State::InProgress;
    task.add_subtask(subtask1);
    task.add_subtask(subtask2);

    assert_eq!(task.state, State::InProgress);
}

#[test]
fn test_remove_subtask() {
    let mut task: Task = Task::parse("* [ ] Main task").unwrap();
    let subtask: Task = Task::parse("* [ ] Subtask 1").unwrap();

    task.add_subtask(subtask);
    assert_eq!(task.subtasks.len(), 1);

    let removed = task.remove_subtask(0);
    assert!(removed.is_some());
    assert_eq!(removed.unwrap().name, "Subtask 1");
    assert_eq!(task.subtasks.len(), 0);
}

#[test]
fn test_has_subtasks() {
    let mut task: Task = Task::parse("* [ ] Main task").unwrap();
    assert!(!task.has_subtasks());

    let subtask: Task = Task::parse("* [ ] Subtask 1").unwrap();
    task.add_subtask(subtask);
    assert!(task.has_subtasks());
}

#[test]
fn test_display_with_subtasks() {
    let mut task: Task = Task::parse("* [ ] Main task").unwrap();
    let subtask: Task = Task::parse("* [x] Completed subtask").unwrap();

    task.add_subtask(subtask);
    let output = task.to_string();

    assert!(output.contains("* [x] Main task"));
    assert!(output.contains("  * [x] Completed subtask"));
}

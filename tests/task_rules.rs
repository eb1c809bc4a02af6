use base::{Error, State, Task};

fn leaf(name: &str, state: State) -> Task {
    Task { name: name.to_string(), state, subtasks: Vec::new() }
}

#[test]
fn parse_rejects_unknown_state_character() {
    assert_eq!(
        Task::parse("* [?] Water plants"),
        Err(Error::InvalidTaskSyntax("* [?] Water plants".to_string()))
    );
}

#[test]
fn parse_rejects_other_markers_and_shapes() {
    assert!(Task::parse("+ [ ] Water plants").is_err());
    assert!(Task::parse("|[ ] Water plants").is_err());
    assert!(Task::parse("* [] Water plants").is_err());
    assert!(Task::parse("* [ ]").is_err());
    assert!(Task::parse("*  [ ] two spaces").is_err());
    assert!(Task::parse("plain text").is_err());
    assert!(Task::parse("").is_err());
}

#[test]
fn parse_keeps_a_lone_trailing_space_as_name() {
    let task = Task::parse("* [x] ").unwrap();
    assert_eq!(task.name, " ");
    let task = Task::parse("* [x]  padded").unwrap();
    assert_eq!(task.name, " padded");
}

#[test]
fn round_trip_of_task_lines() {
    for line in ["* [x] a", "- [ ] b c", "-[~]d", "*[#] e", "- [x]  f"] {
        let task = Task::parse(line).unwrap();
        let text = task.to_string();
        let again = Task::parse(text.trim_end_matches('\n')).unwrap();
        assert_eq!(again.state, task.state);
        assert_eq!(again.name, task.name);
    }
}

#[test]
fn to_string_writes_each_state() {
    let mut task = leaf("Main", State::Blocked);
    assert_eq!(task.to_string(), "* [#] Main\n");
    task.subtasks.push(leaf("one", State::InProgress));
    task.subtasks.push(leaf("two", State::Incomplete));
    assert_eq!(task.to_string(), "* [#] Main\n  * [~] one\n  * [ ] two\n");
}

#[test]
fn all_completed_subtasks_complete_the_parent() {
    let mut task = leaf("Main", State::Blocked);
    task.add_subtask(leaf("one", State::Completed));
    assert_eq!(task.state, State::Completed);
    task.add_subtask(leaf("two", State::Completed));
    assert_eq!(task.state, State::Completed);
}

#[test]
fn derivation_without_subtasks_keeps_state() {
    let mut task = leaf("Main", State::Blocked);
    task.update_state_from_subtasks();
    assert_eq!(task.state, State::Blocked);
}

#[test]
fn blocked_subtasks_give_incomplete_parent() {
    let mut task = leaf("Main", State::Completed);
    task.add_subtask(leaf("one", State::Blocked));
    assert_eq!(task.state, State::Incomplete);
}

#[test]
fn removing_last_subtask_keeps_state() {
    let mut task = leaf("Main", State::Incomplete);
    task.add_subtask(leaf("one", State::InProgress));
    assert_eq!(task.state, State::InProgress);
    assert_eq!(task.remove_subtask(3), None);
    let removed = task.remove_subtask(0).unwrap();
    assert_eq!(removed.name, "one");
    assert_eq!(task.state, State::InProgress);
}

#[test]
fn mark_subtask_complete_out_of_range() {
    let mut task = leaf("Main", State::Incomplete);
    assert!(!task.mark_subtask_complete(0));
    task.add_subtask(leaf("one", State::Incomplete));
    assert!(!task.mark_subtask_complete(1));
    assert!(task.mark_subtask_complete(0));
    assert_eq!(task.subtasks[0].state, State::Completed);
    assert_eq!(task.state, State::Completed);
}

#[test]
fn state_characters_both_ways() {
    for (text, state) in [("x", State::Completed), (" ", State::Incomplete), ("~", State::InProgress), ("#", State::Blocked)] {
        assert_eq!(State::parse(text), Ok(state));
        assert_eq!(state.as_str(), text);
    }
    assert_eq!(State::parse(""), Err(Error::InvalidTaskSyntax("".to_string())));
    assert_eq!(State::parse("xx"), Err(Error::InvalidTaskSyntax("xx".to_string())));
    assert_eq!(State::parse("?"), Err(Error::InvalidTaskSyntax("?".to_string())));
}

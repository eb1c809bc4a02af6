use base::{rewrite_name, Day, Rewrite, State, Task};

#[test]
fn test_rewrite() {
    let mut text = String::from("Skip validations when setting removing flag on site #13462");
    let rewrite = Rewrite { from: r"#(\d+)".to_string(), to: "github.com/foo/$1".to_string() };
    rewrite.rewrite(&mut text);
    assert_eq!(text, "Skip validations when setting removing flag on site github.com/foo/13462");
}

#[test]
fn test_rewrite_multiple() {
    let mut text = String::from("test #13462 and #13463");
    let rewrite = Rewrite { from: r"#(\d+)".to_string(), to: "github.com/$1".to_string() };
    rewrite.rewrite(&mut text);
    assert_eq!(text, "test github.com/13462 and github.com/13463");
}

#[test]
fn rewrite_with_bad_pattern_leaves_text() {
    let mut text = String::from("a(b");
    let rewrite = Rewrite { from: "(".to_string(), to: "x".to_string() };
    rewrite.rewrite(&mut text);
    assert_eq!(text, "a(b");
}

#[test]
fn rewrites_apply_in_order() {
    let rules = vec![
        Rewrite { from: "a".to_string(), to: "b".to_string() },
        Rewrite { from: "b".to_string(), to: "c".to_string() },
    ];
    assert_eq!(rewrite_name("aab", &rules), "ccc");
    assert_eq!(rewrite_name("xyz", &Vec::new()), "xyz");
}

fn task(name: &str, state: State, subtasks: Vec<Task>) -> Task {
    Task { name: name.to_string(), state, subtasks }
}

#[test]
fn emoji_for_each_state() {
    assert_eq!(State::Blocked.to_emoji(), ":todo_paused:");
    assert_eq!(State::Completed.to_emoji(), ":todo_done:");
    assert_eq!(State::InProgress.to_emoji(), ":todo_doing:");
    assert_eq!(State::Incomplete.to_emoji(), ":todo:");
}

#[test]
fn message_for_a_day() {
    let mut day = Day::new("w/2024-07-01.md").unwrap();
    day.tasks.push(task("Fix #12", State::InProgress, Vec::new()));
    day.tasks.push(task(
        "Release #3",
        State::Incomplete,
        vec![task("Tag #3", State::Completed, Vec::new()), task("Notes", State::Blocked, Vec::new())],
    ));
    day.tasks.push(task("Lunch", State::Incomplete, Vec::new()));
    let rules = vec![Rewrite { from: r"#(\d+)".to_string(), to: "gh/$1".to_string() }];
    assert_eq!(
        day.to_message(&rules),
        ":todo_doing: Fix gh/12\n\n*Release #3*\n:todo_done: Tag gh/3\n:todo_paused: Notes\n\n:todo: Lunch\n"
    );
}

#[test]
fn message_starting_with_a_block() {
    let mut day = Day::new("2024-07-01.md").unwrap();
    day.tasks.push(task("Big", State::Incomplete, vec![task("small", State::Incomplete, Vec::new())]));
    assert_eq!(day.to_message(&Vec::new()), "*Big*\n:todo: small\n\n");
}

use base::{Date, Day, DirEntry, Error, State, Task, Workspace};

const TEMPLATE: &str = "* [] @daily Cook lunch
* [] @daily Deploy staging with latest changes
* [] @daily Deploy production with latest changes
* [] @daily Update changelog with latest production changes
";

const PRIOR: &str = "* [~] Do the laundry
* [x] Water plants
* [x] Cook lunch
";

fn entries(paths: &[&str]) -> Vec<DirEntry> {
    paths.iter().map(|p| DirEntry { path: p.to_string(), is_file: true }).collect()
}

fn task(name: &str, state: State) -> Task {
    Task { name: name.to_string(), state, subtasks: Vec::new() }
}

#[test]
fn test_new_day() {
    let workspace = Workspace::new(
        "test_fixtures/work",
        true,
        Some(TEMPLATE),
        &entries(&["test_fixtures/work/.recurring.md", "test_fixtures/work/2010-10-01.md"]),
    )
    .expect("Could not create workspace");
    let (_, prior_path) = workspace.day_list.last().unwrap();
    let prior = Day::from_content(prior_path, PRIOR).unwrap();
    let today = Date::from_calendar_date(2026, 10, 16).unwrap();
    let new_day = workspace.new_day(&today, false, Some(prior)).expect("Could not create new day");

    assert_eq!(
        new_day.tasks,
        vec![
            Task {
                name: "Do the laundry".to_string(),
                state: State::InProgress,
                subtasks: Vec::new(),
            },
            Task { name: "Cook lunch".to_string(), state: State::Incomplete, subtasks: Vec::new() },
            Task {
                name: "Deploy staging with latest changes".to_string(),
                state: State::Incomplete,
                subtasks: Vec::new(),
            },
            Task {
                name: "Deploy production with latest changes".to_string(),
                state: State::Incomplete,
                subtasks: Vec::new(),
            },
            Task {
                name: "Update changelog with latest production changes".to_string(),
                state: State::Incomplete,
                subtasks: Vec::new(),
            },
        ]
    );
    assert_eq!(&new_day.notes, "");
    assert_eq!(new_day.path, "test_fixtures/work/2026-10-16.md");
}

fn laundry_workspace(template: &str) -> (Workspace, Day) {
    let ws = Workspace::new("home/", true, Some(template), &entries(&["home/2024-07-01.md"])).unwrap();
    let prior =
        Day::from_content("home/2024-07-01.md", "* [~] Laundry\n* [x] Groceries\n").unwrap();
    (ws, prior)
}

#[test]
fn rollover_keeps_unfinished_and_adds_due() {
    let (ws, prior) = laundry_workspace("* [] @daily Feed cat\n");
    let date = Date::from_calendar_date(2024, 7, 2).unwrap();
    let day = ws.new_day(&date, false, Some(prior)).unwrap();
    assert_eq!(day.tasks, vec![task("Laundry", State::InProgress), task("Feed cat", State::Incomplete)]);
    assert_eq!(day.path, "home/2024-07-02.md");
    assert_eq!(day.date, date);
    assert_eq!(day.content(), "* [~] Laundry\n* [ ] Feed cat\n\n");
}

#[test]
fn rollover_does_not_duplicate_carried_name() {
    let (ws, prior) = laundry_workspace("* [] @daily Laundry\n* [] @daily Feed cat\n");
    let date = Date::from_calendar_date(2024, 7, 2).unwrap();
    let day = ws.new_day(&date, false, Some(prior)).unwrap();
    assert_eq!(day.tasks, vec![task("Laundry", State::InProgress), task("Feed cat", State::Incomplete)]);
}

#[test]
fn rollover_checks_templates_against_carried_tasks_only() {
    let (ws, prior) = laundry_workspace("* [] @daily Feed cat\n* [] @daily Feed cat\n* [] @daily Groceries\n");
    let date = Date::from_calendar_date(2024, 7, 2).unwrap();
    let day = ws.new_day(&date, false, Some(prior)).unwrap();
    assert_eq!(
        day.tasks,
        vec![
            task("Laundry", State::InProgress),
            task("Feed cat", State::Incomplete),
            task("Feed cat", State::Incomplete),
            task("Groceries", State::Incomplete),
        ]
    );
}

#[test]
fn rollover_skips_templates_not_due() {
    let (ws, prior) = laundry_workspace("* [] @sunday Rest\n* [] @monthly Rent\n");
    // 2024-07-02 is a Tuesday
    let date = Date::from_calendar_date(2024, 7, 2).unwrap();
    let day = ws.new_day(&date, false, Some(prior)).unwrap();
    assert_eq!(day.tasks, vec![task("Laundry", State::InProgress)]);
    let first = Date::from_calendar_date(2024, 8, 1).unwrap();
    let day = ws.new_day(&first, false, None).unwrap();
    assert_eq!(day.tasks, vec![task("Rent", State::Incomplete)]);
}

#[test]
fn rollover_twice_fails_the_second_time() {
    let (ws, prior) = laundry_workspace("* [] @daily Feed cat\n");
    let date = Date::from_calendar_date(2024, 7, 2).unwrap();
    let first = ws.new_day(&date, false, Some(prior));
    assert!(first.is_ok());
    // the first day's file now exists
    let second = ws.new_day(&date, true, None);
    assert_eq!(second.err(), Some(Error::DayAlreadyExists("2024-07-02.md".to_string())));
}

#[test]
fn workspace_errors_and_names() {
    let none: Vec<DirEntry> = Vec::new();
    assert_eq!(Workspace::new("w", false, None, &none).err(), Some(Error::WorkspaceIsNotDirectory));
    assert_eq!(
        Workspace::new("", true, None, &none).err(),
        Some(Error::InvalidWorkspaceName("".to_string()))
    );
    assert_eq!(
        Workspace::new("w", true, Some("bad"), &none).err(),
        Some(Error::InvalidRecurringTaskSyntax("bad".to_string()))
    );
    assert_eq!(Workspace::new("/home/me/work/", true, None, &none).unwrap().name, "work");
    assert_eq!(Workspace::new("/home/me/work/.", true, None, &none).unwrap().name, "work");
    assert_eq!(Workspace::new("/", true, None, &none).unwrap().name, "/");
    assert_eq!(Workspace::new("./", true, None, &none).unwrap().name, ".");
    assert_eq!(Workspace::new("..", true, None, &none).unwrap().name, "..");
}

#[test]
fn listing_for_today_and_paths() {
    let ws = Workspace::new("w", true, None, &entries(&["w/2024-07-01.md", "w/2024-07-03.md"])).unwrap();
    let d3 = Date::from_calendar_date(2024, 7, 3).unwrap();
    assert_eq!(ws.listing_for(&d3).unwrap().1, "w/2024-07-03.md");
    assert!(ws.listing_for(&Date::from_calendar_date(2024, 7, 2).unwrap()).is_none());
    assert_eq!(ws.day_path(&d3), "w/2024-07-03.md");
    assert_eq!(Workspace::day_file_name(&Date::from_calendar_date(-5, 1, 9).unwrap()), "-0005-01-09.md");
    assert_eq!(Date::from_calendar_date(987, 12, 31).unwrap().to_text(), "0987-12-31");
    assert!(Date::from_calendar_date(2023, 2, 29).is_none());
    assert!(Date::from_calendar_date(2000, 13, 1).is_none());
}

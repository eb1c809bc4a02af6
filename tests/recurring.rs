use base::{Date, Error, Interval, RecurringTask, RecurringTasks, State};

fn running_tasks(task_str: &str) -> RecurringTasks {
    RecurringTasks(vec![RecurringTask::parse(task_str).expect("Could not parse running task")])
}

fn for_date(task_str: &str, day: u8) -> Vec<RecurringTask> {
    running_tasks(task_str)
        .for_date(&Date::from_calendar_date(2024, 7, day).expect("Could not parse date"))
}

const TEMPLATE: &str = "* [] @daily Cook lunch
* [] @daily Deploy staging with latest changes
* [] @daily Deploy production with latest changes
* [] @daily Update changelog with latest production changes
";

#[test]
fn test_recurring_tasks_from_path() {
    let recurring_tasks = RecurringTasks::parse(TEMPLATE).expect("Could not load recurring tasks");

    assert_eq!(recurring_tasks.0.len(), 4);
}

#[test]
fn test_recurring_task_to_string() {
    let recurring_task = RecurringTask { name: "test".to_string(), interval: Interval::Daily };
    assert_eq!(&recurring_task.to_string(), "* [] @daily test");
}

#[test]
fn test_try_from_recurring_task() {
    let recurring_task = RecurringTask::parse("* [] @daily test").unwrap();
    assert_eq!(recurring_task.name, "test");
    assert_eq!(recurring_task.interval, Interval::Daily);

    let recurring_task = RecurringTask::parse("-[]@weekly test").unwrap();
    assert_eq!(recurring_task.name, "test");
    assert_eq!(recurring_task.interval, Interval::Weekly);
}

#[test]
fn test_for_date_daily() {
    // July 1st, a Monday
    assert_eq!(for_date("* [ ] @daily feed the cat", 7).len(), 1,);
}

#[test]
fn test_for_date_weekday() {
    // July 1st, a Monday
    assert_eq!(for_date("* [ ] @weekday feed the cat", 1).len(), 1);

    // July 7th, a Sunday
    assert_eq!(for_date("* [ ] @weekday feed the cat", 7).len(), 0);
}

#[test]
fn test_for_date_weekend() {
    // July 1st, a Monday
    assert_eq!(for_date("* [ ] @weekend feed the cat", 1).len(), 0);

    // July 7th, a Sunday
    assert_eq!(for_date("* [ ] @weekend feed the cat", 7).len(), 1);
}

#[test]
fn test_for_date_monday() {
    // July 1st, a Monday
    assert_eq!(for_date("* [ ] @monday feed the cat", 1).len(), 1);

    // July 7th, a Sunday
    assert_eq!(for_date("* [ ] @monday feed the cat", 7).len(), 0);
}

#[test]
fn interval_words_ignore_case() {
    assert_eq!(Interval::parse("DAILY"), Ok(Interval::Daily));
    assert_eq!(Interval::parse("WeekEnd"), Ok(Interval::Weekend));
    assert_eq!(Interval::parse("sunday"), Ok(Interval::Sunday));
    assert_eq!(Interval::parse("fortnightly"), Err(Error::InvalidIntervalSyntax("fortnightly".to_string())));
}

#[test]
fn unknown_interval_word_is_an_interval_error() {
    assert_eq!(
        RecurringTask::parse("* [] @yearly taxes"),
        Err(Error::InvalidIntervalSyntax("yearly".to_string()))
    );
}

#[test]
fn malformed_template_line_is_a_syntax_error() {
    for line in ["* [] daily taxes", "* [x] @daily taxes", "* [] @daily", "* [] @ taxes", "taxes"] {
        assert_eq!(
            RecurringTask::parse(line),
            Err(Error::InvalidRecurringTaskSyntax(line.to_string()))
        );
    }
}

#[test]
fn interval_word_of_other_characters_is_a_syntax_error() {
    for line in ["* [] @dai-ly a", "* [] @daily-foo x", "* [] @da.ily x"] {
        assert_eq!(
            RecurringTask::parse(line),
            Err(Error::InvalidRecurringTaskSyntax(line.to_string()))
        );
    }
    assert_eq!(
        RecurringTask::parse("* [] @é x"),
        Err(Error::InvalidIntervalSyntax("é".to_string()))
    );
    assert_eq!(
        RecurringTask::parse("* [] @dély x"),
        Err(Error::InvalidIntervalSyntax("dély".to_string()))
    );
    assert_eq!(
        RecurringTask::parse("* [] @daily\tx"),
        Err(Error::InvalidRecurringTaskSyntax("* [] @daily\tx".to_string()))
    );
    assert_eq!(
        RecurringTask::parse("* [] @every_2nd_day x"),
        Err(Error::InvalidIntervalSyntax("every_2nd_day".to_string()))
    );
}

#[test]
fn template_with_spaces_and_capitals() {
    let t = RecurringTask::parse("- [ ] @Friday  send report").unwrap();
    assert_eq!(t.interval, Interval::Friday);
    assert_eq!(t.name, " send report");
}

#[test]
fn one_bad_line_fails_the_whole_template() {
    let text = "* [] @daily a\nnot a template\n* [] @daily b\n";
    assert_eq!(
        RecurringTasks::parse(text),
        Err(Error::InvalidRecurringTaskSyntax("not a template".to_string()))
    );
    assert_eq!(RecurringTasks::parse("").unwrap().0.len(), 0);
}

#[test]
fn weekday_is_due_five_of_seven_days_and_opposite_of_weekend() {
    let weekday = RecurringTask::parse("* [] @weekday w").unwrap();
    let weekend = RecurringTask::parse("* [] @weekend e").unwrap();
    let mut due = 0;
    // 2024-02-26 to 2024-03-03 crosses a month end in a leap year
    for (m, d) in [(2u8, 26u8), (2, 27), (2, 28), (2, 29), (3, 1), (3, 2), (3, 3)] {
        let date = Date::from_calendar_date(2024, m, d).unwrap();
        if weekday.is_due(&date) {
            due += 1;
        }
        assert_eq!(weekday.is_due(&date), !weekend.is_due(&date));
    }
    assert_eq!(due, 5);
}

#[test]
fn monthly_is_due_on_the_first_only() {
    let monthly = RecurringTask::parse("* [] @monthly rent").unwrap();
    let mut due = Vec::new();
    for d in 1..=31u8 {
        let date = Date::from_calendar_date(2023, 1, d).unwrap();
        if monthly.is_due(&date) {
            due.push(d);
        }
    }
    assert_eq!(due, vec![1]);
}

#[test]
fn weekly_lands_on_monday() {
    let weekly = RecurringTask::parse("* [] @weekly review").unwrap();
    assert!(weekly.is_due(&Date::from_calendar_date(2024, 7, 8).unwrap()));
    assert!(!weekly.is_due(&Date::from_calendar_date(2024, 7, 9).unwrap()));
}

#[test]
fn weekday_numbers_from_time() {
    assert_eq!(Date::from_calendar_date(2024, 7, 1).unwrap().weekday(), 1);
    assert_eq!(Date::from_calendar_date(2024, 7, 7).unwrap().weekday(), 7);
    assert_eq!(Date::from_calendar_date(1970, 1, 1).unwrap().weekday(), 4);
    assert_eq!(Date::from_calendar_date(2000, 2, 29).unwrap().weekday(), 2);
}

#[test]
fn to_task_is_fresh_and_incomplete() {
    let t = RecurringTask::parse("* [] @daily Feed cat").unwrap().to_task();
    assert_eq!(t.name, "Feed cat");
    assert_eq!(t.state, State::Incomplete);
    assert!(t.subtasks.is_empty());
}

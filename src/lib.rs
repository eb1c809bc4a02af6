//! Daily task lists kept as plain-text files: parsing, derived task state,
//! recurring templates, the day index and the rollover that starts a new day.

pub mod date;
pub mod day;
pub mod error;
pub mod message;
pub mod recurring_task;
pub mod sync_state;
pub mod task;
pub mod text;
pub mod workspace;

pub use date::Date;
pub use day::{date_from_path, parse_day_content, Day, DayListing, DaysList, DirEntry, DAY_EXTENSION, RECURRING_FILE};
pub use error::Error;
pub use message::{rewrite_name, Rewrite};
pub use recurring_task::{Interval, RecurringTask, RecurringTasks};
pub use sync_state::{record_post, sync_action, SlackDayState, SyncAction};
pub use task::{State, State as TaskState, Task};
pub use workspace::Workspace;

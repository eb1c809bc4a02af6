use crate::date::{date_text, Date};
use crate::day::{
    candidates, listing_view, sort_listings, Day, DayListing, DaysList, DirEntry, DAY_EXTENSION,
};
use crate::error::Error;
use crate::recurring_task::{due_tasks, first_template_error, template_text_reads, templates_of, RecurringTask, RecurringTasks};
use crate::task::{State, Task};
use crate::text::{last_index_before, last_index_of, lemma_last_index_before, slice_to_string};
use vstd::prelude::*;
use vstd::string::*;

verus! {

/// A directory of day files with its recurring-task templates and its day
/// index, as they were when it was opened.
pub struct Workspace {
    pub name: String,
    pub path: String,
    pub recurring_tasks: RecurringTasks,
    pub day_list: DaysList,
}

/// The last component of a path among its first `end` characters: the last
/// segment between slashes that is neither empty nor `.`; failing that, `/`
/// for a path from the root, `.` for any other non-empty path, and none for
/// the empty path.
pub open spec fn last_component(p: Seq<char>, end: int) -> Option<Seq<char>>
    decreases end + 1,
    via last_component_decreases
{
    if end > p.len() {
        None
    } else if end <= 0 {
        if p.len() > 0 && p[0] == '/' {
            Some(seq!['/'])
        } else if p.len() > 0 {
            Some(seq!['.'])
        } else {
            None
        }
    } else {
        let start = last_index_before(p, '/', end) + 1;
        let seg = p.subrange(start, end);
        if seg.len() == 0 || seg == seq!['.'] {
            last_component(p, start - 1)
        } else {
            Some(seg)
        }
    }
}

#[via_fn]
proof fn last_component_decreases(p: Seq<char>, end: int) {
    if 0 < end <= p.len() {
        lemma_last_index_before(p, '/', end);
    }
}

/// The name of a workspace: the last component of its path.
pub fn workspace_name(path: &str) -> (r: Option<String>)
    ensures
        match last_component(path@, path@.len() as int) {
            Some(c) => r matches Some(x) && x@ == c,
            None => r is None,
        },
{
    let n = path.unicode_len();
    let mut end: usize = n;
    while end > 0
        invariant
            end <= n,
            n == path@.len(),
            last_component(path@, n as int) == last_component(path@, end as int),
        decreases end,
    {
        proof {
            lemma_last_index_before(path@, '/', end as int);
        }
        let start: usize = match last_index_of(path, end, '/') {
            Some(i) => i + 1,
            None => 0,
        };
        let len = end - start;
        let ghost seg = path@.subrange(start as int, end as int);
        assert(last_component(path@, end as int) == if seg.len() == 0 || seg == seq!['.'] {
            last_component(path@, start - 1)
        } else {
            Some(seg)
        });
        assert(last_component(path@, -1) == last_component(path@, 0));
        if len == 0 || (len == 1 && path.get_char(start) == '.') {
            proof {
                if len == 1 {
                    assert(seg =~= seq!['.']);
                }
            }
            if start == 0 {
                end = 0;
            } else {
                end = start - 1;
            }
        } else {
            proof {
                let dot: Seq<char> = seq!['.'];
                if seg == dot {
                    assert(seg[0] == path@[start as int]);
                }
            }
            return Some(slice_to_string(path, start, end));
        }
    }
    if n > 0 && path.get_char(0) == '/' {
        proof {
            reveal_strlit("/");
        }
        Some(String::from_str("/"))
    } else if n > 0 {
        proof {
            reveal_strlit(".");
        }
        Some(String::from_str("."))
    } else {
        None
    }
}

/// The tasks carried into a new day: those of the prior day that are not
/// completed, in order and unchanged.
pub open spec fn carried(prior: Seq<Task>) -> Seq<Task> {
    prior.filter(|t: Task| t.state != State::Completed)
}

pub open spec fn names(ts: Seq<Task>) -> Seq<Seq<char>> {
    ts.map_values(|t: Task| t.name@)
}

/// The names of due templates that a new day gains: in template order, each
/// one that is not among the names of the carried tasks.
pub open spec fn injected(present: Seq<Seq<char>>, due: Seq<Seq<char>>) -> Seq<Seq<char>>
    decreases due.len(),
{
    if due.len() == 0 {
        Seq::empty()
    } else {
        let prev = injected(present, due.drop_last());
        if present.contains(due.last()) {
            prev
        } else {
            prev.push(due.last())
        }
    }
}

/// The tasks of a new day: the carried tasks, then one fresh incomplete task
/// for each injected name.
pub open spec fn is_rollover(r: Seq<Task>, prior: Seq<Task>, due: Seq<Seq<char>>) -> bool {
    let c = carried(prior);
    let add = injected(names(c), due);
    &&& r.len() == c.len() + add.len()
    &&& r.subrange(0, c.len() as int) == c
    &&& forall|i: int|
        0 <= i < add.len() ==> {
            &&& (#[trigger] r[c.len() + i]).name@ == add[i]
            &&& r[c.len() + i].state == State::Incomplete
            &&& r[c.len() + i].subtasks@.len() == 0
        }
}

pub open spec fn template_names(ts: Seq<RecurringTask>) -> Seq<Seq<char>> {
    ts.map_values(|t: RecurringTask| t.name@)
}

/// A name injected by rollover is never one of the names already present.
pub proof fn lemma_injected_are_new(present: Seq<Seq<char>>, due: Seq<Seq<char>>)
    ensures
        forall|i: int| 0 <= i < injected(present, due).len() ==> !present.contains(#[trigger] injected(present, due)[i]),
    decreases due.len(),
{
    if due.len() > 0 {
        lemma_injected_are_new(present, due.drop_last());
        let prev = injected(present, due.drop_last());
        if !present.contains(due.last()) {
            let all = injected(present, due);
            assert(all == prev.push(due.last()));
            assert forall|i: int| 0 <= i < all.len() implies !present.contains(#[trigger] all[i]) by {
                if i < prev.len() {
                    assert(all[i] == prev[i]);
                }
            }
        }
    }
}

/// Rollover never yields two tasks of one name where one was carried forward
/// and the other came from a recurring template.
pub proof fn lemma_rollover_no_duplicate(r: Seq<Task>, prior: Seq<Task>, due: Seq<Seq<char>>)
    requires
        is_rollover(r, prior, due),
    ensures
        forall|i: int, j: int|
            0 <= i < carried(prior).len() <= j < r.len() ==> r[i].name@ != r[j].name@,
{
    let c = carried(prior);
    let add = injected(names(c), due);
    lemma_injected_are_new(names(c), due);
    assert forall|i: int, j: int| 0 <= i < c.len() <= j < r.len() implies r[i].name@ != r[j].name@ by {
        assert(r[i] == r.subrange(0, c.len() as int)[i]);
        assert(r[i] == c[i]);
        assert(names(c)[i] == c[i].name@);
        let k = j - c.len();
        assert(r[c.len() + k].name@ == add[k]);
        assert(!names(c).contains(add[k]));
    }
}

/// Whether a task of the name is among the first `k` tasks of `ts`.
fn has_task_named(ts: &Vec<Task>, k: usize, name: &String) -> (r: bool)
    requires
        k <= ts@.len(),
    ensures
        r == names(ts@.subrange(0, k as int)).contains(name@),
{
    let ghost pre = ts@.subrange(0, k as int);
    let mut i: usize = 0;
    while i < k
        invariant
            i <= k <= ts@.len(),
            pre == ts@.subrange(0, k as int),
            forall|j: int| 0 <= j < i ==> ts@[j].name@ != name@,
        decreases k - i,
    {
        if ts[i].name == *name {
            assert(names(pre)[i as int] == name@);
            return true;
        }
        i = i + 1;
    }
    proof {
        if names(pre).contains(name@) {
            let j = choose|j: int| 0 <= j < names(pre).len() && names(pre)[j] == name@;
            assert(pre[j] == ts@[j]);
        }
    }
    false
}

/// The tasks of a new day: the prior day's tasks that are not completed, in
/// order and unchanged, then a fresh incomplete task for each due template
/// whose name is not among those carried tasks.
pub fn rollover_tasks(prior: Vec<Task>, due: &Vec<RecurringTask>) -> (r: Vec<Task>)
    ensures
        is_rollover(r@, prior@, template_names(due@)),
{
    let ghost orig = prior@;
    let mut prior = prior;
    let mut tasks: Vec<Task> = Vec::new();
    let ghost mut taken: int = 0;
    while prior.len() > 0
        invariant
            0 <= taken <= orig.len(),
            prior@ == orig.subrange(taken, orig.len() as int),
            tasks@ == carried(orig.subrange(0, taken)),
        decreases prior@.len(),
    {
        let t = prior.remove(0);
        proof {
            let s = orig.subrange(0, taken + 1);
            assert(s.drop_last() =~= orig.subrange(0, taken));
            assert(s.last() == t);
            reveal(Seq::filter);
        }
        if t.state != State::Completed {
            tasks.push(t);
        }
        proof {
            taken = taken + 1;
            assert(prior@ =~= orig.subrange(taken, orig.len() as int));
        }
    }
    assert(orig.subrange(0, taken) =~= orig);
    let ghost c = tasks@;
    let kept = tasks.len();
    let ghost dn = template_names(due@);
    let mut i: usize = 0;
    assert(injected(names(c), dn.subrange(0, 0)) =~= Seq::<Seq<char>>::empty());
    assert(tasks@.subrange(0, c.len() as int) =~= c);
    while i < due.len()
        invariant
            i <= due@.len(),
            c == carried(orig),
            kept == c.len(),
            dn == template_names(due@),
            is_rollover(tasks@, orig, dn.subrange(0, i as int)),
        decreases due@.len() - i,
    {
        let ghost add = injected(names(c), dn.subrange(0, i as int));
        let ghost d = dn.subrange(0, i + 1);
        assert(d.drop_last() =~= dn.subrange(0, i as int));
        assert(d.last() == due@[i as int].name@);
        let rt = &due[i];
        if !has_task_named(&tasks, kept, &rt.name) {
            let ghost before = tasks@;
            tasks.push(rt.to_task());
            proof {
                let add2 = injected(names(c), d);
                assert(add2 == add.push(rt.name@));
                assert(tasks@.subrange(0, c.len() as int) =~= before.subrange(0, c.len() as int));
                assert forall|k: int| 0 <= k < add2.len() implies {
                    &&& (#[trigger] tasks@[c.len() + k]).name@ == add2[k]
                    &&& tasks@[c.len() + k].state == State::Incomplete
                    &&& tasks@[c.len() + k].subtasks@.len() == 0
                } by {
                    if k < add.len() {
                        assert(tasks@[c.len() + k] == before[c.len() + k]);
                    }
                }
            }
        }
        i = i + 1;
    }
    assert(dn.subrange(0, i as int) =~= dn);
    tasks
}

/// A file name joined onto a directory path, with a `/` between them unless
/// the path is empty or already ends in one.
pub open spec fn join_path(base: Seq<char>, name: Seq<char>) -> Seq<char> {
    if base.len() == 0 || base.last() == '/' {
        base + name
    } else {
        base + seq!['/'] + name
    }
}

/// The file name of the day file for a date.
pub open spec fn day_file_name_of(date: Date) -> Seq<char> {
    date_text(date.year as int, date.month as int, date.day as int) + seq!['.'] + DAY_EXTENSION@
}

/// The tasks of the prior day, if there is one.
pub open spec fn prior_tasks(prior: Option<Day>) -> Seq<Task> {
    match prior {
        Some(d) => d.tasks@,
        None => Seq::empty(),
    }
}

/// What creating the day for `date` gives: `DayAlreadyExists` naming the
/// file when it is already there; otherwise the day at that file's path,
/// dated `date`, without notes, whose tasks are the rollover of the prior
/// day's tasks and the templates due on `date`.
pub open spec fn new_day_result(
    ws: Workspace,
    date: Date,
    target_exists: bool,
    prior: Option<Day>,
    r: Result<Day, Error>,
) -> bool {
    if target_exists {
        r matches Err(Error::DayAlreadyExists(m)) && m@ == day_file_name_of(date)
    } else {
        r matches Ok(d) && d.path@ == join_path(ws.path@, day_file_name_of(date)) && d.date == date
            && d.notes@.len() == 0 && is_rollover(
            d.tasks@,
            prior_tasks(prior),
            template_names(due_tasks(ws.recurring_tasks.0@, date)),
        )
    }
}

/// Creating the same day twice: once the first day has been written to its
/// path, the second attempt finds that file and fails with
/// `DayAlreadyExists`, naming the very file the first one wrote, and hands
/// back no day to write.
pub proof fn lemma_second_new_day_fails(
    ws: Workspace,
    date: Date,
    prior: Option<Day>,
    first: Result<Day, Error>,
    later_prior: Option<Day>,
    second: Result<Day, Error>,
)
    requires
        new_day_result(ws, date, false, prior, first),
        new_day_result(ws, date, first is Ok, later_prior, second),
    ensures
        second matches Err(Error::DayAlreadyExists(m)) && join_path(ws.path@, m@) == first->Ok_0.path@,
        second is Err,
{
}

fn join(base: &str, name: &str) -> (r: String)
    ensures
        r@ == join_path(base@, name@),
{
    let n = base.unicode_len();
    let mut out = String::from_str(base);
    if n > 0 && base.get_char(n - 1) != '/' {
        proof {
            reveal_strlit("/");
        }
        out.append("/");
    }
    out.append(name);
    out
}

impl Workspace {
    /// The workspace at `path`, from what was found there: whether the path
    /// is a directory, the text of the recurring-task template if the file
    /// exists, and the directory's entries.
    pub fn new(path: &str, is_dir: bool, recurring: Option<&str>, entries: &Vec<DirEntry>) -> (r:
        Result<Workspace, Error>)
        ensures
            !is_dir ==> r == Err::<Workspace, Error>(Error::WorkspaceIsNotDirectory),
            is_dir && last_component(path@, path@.len() as int) is None ==> (r matches Err(
                Error::InvalidWorkspaceName(m),
            ) && m@ == path@),
            is_dir && last_component(path@, path@.len() as int) is Some ==> match recurring {
                None => r is Ok,
                Some(text) => {
                    &&& r is Ok <==> template_text_reads(text@)
                    &&& r matches Err(e) ==> first_template_error(text@, e)
                },
            },
            r matches Ok(w) ==> {
                &&& Some(w.name@) == last_component(path@, path@.len() as int)
                &&& w.path@ == path@
                &&& w.day_list.0@.map_values(|l: DayListing| listing_view(l)) == sort_listings(
                    candidates(entries@),
                )
                &&& recurring is None ==> w.recurring_tasks.0@.len() == 0
                &&& recurring matches Some(text) ==> templates_of(text@, w.recurring_tasks.0@)
            },
    {
        if !is_dir {
            return Err(Error::WorkspaceIsNotDirectory);
        }
        let name = match workspace_name(path) {
            Some(n) => n,
            None => {
                return Err(Error::InvalidWorkspaceName(String::from_str(path)));
            },
        };
        let recurring_tasks = match recurring {
            Some(text) => RecurringTasks::parse(text)?,
            None => RecurringTasks(Vec::new()),
        };
        let day_list = DaysList::from_entries(entries);
        Ok(Workspace { name, path: String::from_str(path), recurring_tasks, day_list })
    }

    /// The first listing of the index for `date`, if any.
    pub fn listing_for(&self, date: &Date) -> (r: Option<&DayListing>)
        ensures
            r is None <==> forall|i: int| 0 <= i < self.day_list.0@.len() ==> self.day_list.0@[i].0 != *date,
            r matches Some(l) ==> exists|i: int|
                0 <= i < self.day_list.0@.len() && self.day_list.0@[i] == *l && l.0 == *date
                    && forall|j: int| 0 <= j < i ==> self.day_list.0@[j].0 != *date,
    {
        let list = &self.day_list.0;
        let mut i: usize = 0;
        while i < list.len()
            invariant
                i <= list@.len(),
                list == &self.day_list.0,
                forall|j: int| 0 <= j < i ==> list@[j].0 != *date,
            decreases list@.len() - i,
        {
            if list[i].0 == *date {
                return Some(&list[i]);
            }
            i = i + 1;
        }
        None
    }

    /// The file name of the day file for `date`: `YYYY-MM-DD.md`.
    pub fn day_file_name(date: &Date) -> (r: String)
        requires
            date.wf(),
        ensures
            r@ == day_file_name_of(*date),
    {
        let mut name = date.to_text();
        proof {
            reveal_strlit(".");
        }
        name.append(".");
        name.append(DAY_EXTENSION);
        name
    }

    /// The path of the day file for `date` in this workspace.
    pub fn day_path(&self, date: &Date) -> (r: String)
        requires
            date.wf(),
        ensures
            r@ == join_path(self.path@, day_file_name_of(*date)),
    {
        let name = Workspace::day_file_name(date);
        join(self.path.as_str(), name.as_str())
    }

    /// The new day for `date`, to be written to its file. It fails with
    /// `DayAlreadyExists` when that file is already there. Otherwise it holds
    /// the unfinished tasks of `prior`, the latest day before it, followed by
    /// the templates due on `date` whose names are not among those tasks, and
    /// no notes.
    pub fn new_day(&self, date: &Date, target_exists: bool, prior: Option<Day>) -> (r: Result<
        Day,
        Error,
    >)
        requires
            date.wf(),
        ensures
            new_day_result(*self, *date, target_exists, prior, r),
    {
        let file_name = Workspace::day_file_name(date);
        if target_exists {
            return Err(Error::DayAlreadyExists(file_name));
        }
        let path = join(self.path.as_str(), file_name.as_str());
        let prior_list = match prior {
            Some(day) => day.tasks,
            None => Vec::new(),
        };
        let due = self.recurring_tasks.for_date(date);
        let tasks = rollover_tasks(prior_list, &due);
        Ok(Day { path, date: *date, tasks, notes: String::new() })
    }
}

} // verus!

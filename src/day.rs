use crate::date::{calendar_date_of_text, Date};
use crate::error::Error;
use crate::task::{parse_task_line, task_text, State, Task};
use crate::text::{
    chars_after, chars_after_exec,
    last_index_before, last_index_of, lemma_last_index_before, lines_of, slice_to_string,
    split_lines, views,
};
use vstd::prelude::*;
use vstd::seq_lib::{to_multiset_build, to_multiset_insert};
use vstd::string::*;

verus! {

/// The file name of the recurring-task template.
pub const RECURRING_FILE: &'static str = ".recurring.md";

/// The extension of day files.
pub const DAY_EXTENSION: &'static str = "md";

/// A task line as its state and name.
pub open spec fn entry_of(t: Task) -> (State, Seq<char>) {
    (t.state, t.name@)
}

/// A top-level task with the entries of its subtasks.
pub open spec fn block_of(t: Task) -> ((State, Seq<char>), Seq<(State, Seq<char>)>) {
    (entry_of(t), t.subtasks@.map_values(|s: Task| entry_of(s)))
}

pub open spec fn blocks(ts: Seq<Task>) -> Seq<((State, Seq<char>), Seq<(State, Seq<char>)>)> {
    ts.map_values(|t: Task| block_of(t))
}

/// Whether no subtask of the list has subtasks of its own.
pub open spec fn one_level(ts: Seq<Task>) -> bool {
    forall|i: int, j: int|
        0 <= i < ts.len() && 0 <= j < ts[i].subtasks@.len() ==> ts[i].subtasks@[j].subtasks@.len()
            == 0
}

/// A line that starts with two spaces or a tab.
pub open spec fn is_indented(l: Seq<char>) -> bool {
    (l.len() >= 2 && l[0] == ' ' && l[1] == ' ') || (l.len() >= 1 && l[0] == '\t')
}

/// A line without one leading unit of indentation.
pub open spec fn unindented(l: Seq<char>) -> Seq<char> {
    if l.len() >= 2 && l[0] == ' ' && l[1] == ' ' {
        l.subrange(2, l.len() as int)
    } else if l.len() >= 1 && l[0] == '\t' {
        l.subrange(1, l.len() as int)
    } else {
        l
    }
}

/// The tasks and notes of a day's lines. A line that is no task line goes to
/// the notes as it is; an indented task line is a subtask of the last task,
/// or a task of its own when there is none yet.
pub open spec fn parse_day_lines(lines: Seq<Seq<char>>) -> (
    Seq<((State, Seq<char>), Seq<(State, Seq<char>)>)>,
    Seq<char>,
)
    decreases lines.len(),
{
    if lines.len() == 0 {
        (Seq::empty(), Seq::empty())
    } else {
        let prev = parse_day_lines(lines.drop_last());
        let line = lines.last();
        match parse_task_line(unindented(line)) {
            None => (prev.0, prev.1 + line),
            Some(e) => if is_indented(line) && prev.0.len() > 0 {
                let k = prev.0.len() - 1;
                (prev.0.update(k, (prev.0[k].0, prev.0[k].1.push(e))), prev.1)
            } else {
                (prev.0.push((e, Seq::empty())), prev.1)
            },
        }
    }
}

/// The text of a list of tasks, one after the other.
pub open spec fn tasks_text(ts: Seq<Task>) -> Seq<char>
    decreases ts.len(),
{
    if ts.len() == 0 {
        Seq::empty()
    } else {
        tasks_text(ts.drop_last()) + task_text(ts.last())
    }
}

/// The text of a day file: its tasks, a line break, then the notes.
pub open spec fn day_text(tasks: Seq<Task>, notes: Seq<char>) -> Seq<char> {
    tasks_text(tasks) + seq!['\n'] + notes
}

/// Reads a day's text into its tasks and notes.
pub fn parse_day_content(content: &str) -> (r: (Vec<Task>, String))
    ensures
        blocks(r.0@) == parse_day_lines(lines_of(content@)).0,
        r.1@ == parse_day_lines(lines_of(content@)).1,
        one_level(r.0@),
{
    let lines = split_lines(content);
    let mut tasks: Vec<Task> = Vec::new();
    let mut notes = String::new();
    let mut i: usize = 0;
    while i < lines.len()
        invariant
            i <= lines@.len(),
            views(lines@) == lines_of(content@),
            blocks(tasks@) == parse_day_lines(views(lines@).subrange(0, i as int)).0,
            notes@ == parse_day_lines(views(lines@).subrange(0, i as int)).1,
            one_level(tasks@),
        decreases lines@.len() - i,
    {
        let ghost seen = views(lines@).subrange(0, i + 1);
        let ghost prev = parse_day_lines(views(lines@).subrange(0, i as int));
        assert(seen.drop_last() =~= views(lines@).subrange(0, i as int));
        assert(seen.last() == lines@[i as int]@);
        let l = lines[i].as_str();
        let n = l.unicode_len();
        let indented_two = n >= 2 && l.get_char(0) == ' ' && l.get_char(1) == ' ';
        let start: usize = if indented_two {
            2
        } else if n >= 1 && l.get_char(0) == '\t' {
            1
        } else {
            0
        };
        let body = l.substring_char(start, n);
        assert(body@ =~= unindented(l@));
        match Task::parse(body) {
            Err(_) => {
                notes.append(l);
            },
            Ok(t) => {
                if start > 0 && tasks.len() > 0 {
                    let mut last = tasks.pop().unwrap();
                    let ghost before = last;
                    last.subtasks.push(t);
                    assert(last.subtasks@.map_values(|s: Task| entry_of(s)) =~= before.subtasks@.map_values(|s: Task| entry_of(s)).push(entry_of(t)));
                    tasks.push(last);
                    assert(blocks(tasks@) =~= prev.0.update(prev.0.len() - 1, (prev.0[prev.0.len() - 1].0, prev.0[prev.0.len() - 1].1.push(entry_of(t)))));
                } else {
                    let ghost before = tasks@;
                    tasks.push(t);
                    assert(t.subtasks@.map_values(|s: Task| entry_of(s)) =~= Seq::<(State, Seq<char>)>::empty());
                    assert(blocks(tasks@) =~= blocks(before).push((entry_of(t), Seq::empty())));
                }
            },
        }
        i = i + 1;
    }
    assert(views(lines@).subrange(0, i as int) =~= views(lines@));
    (tasks, notes)
}

/// The last component of a path: what follows its last `/`.
pub open spec fn file_name(path: Seq<char>) -> Seq<char> {
    path.subrange(last_index_before(path, '/', path.len() as int) + 1, path.len() as int)
}

/// Whether a path ends in a file name: not empty, `.` or `..`.
pub open spec fn has_file_name(path: Seq<char>) -> bool {
    let f = file_name(path);
    f.len() > 0 && f != seq!['.'] && f != seq!['.', '.']
}

/// Where the extension of a file name starts its dot, or a value below one
/// when it has none; a leading dot starts no extension.
pub open spec fn dot_index(name: Seq<char>) -> int {
    last_index_before(name, '.', name.len() as int)
}

/// A file name without its extension.
pub open spec fn stem_of(name: Seq<char>) -> Seq<char> {
    if dot_index(name) <= 0 {
        name
    } else {
        name.subrange(0, dot_index(name))
    }
}

/// The extension of a file name, if it has one.
pub open spec fn extension_of(name: Seq<char>) -> Option<Seq<char>> {
    if dot_index(name) <= 0 {
        None
    } else {
        Some(name.subrange(dot_index(name) + 1, name.len() as int))
    }
}

/// The date that a day path names, as year, month and day; the error that
/// reading it gives otherwise.
pub open spec fn path_date(path: Seq<char>) -> Option<(int, int, int)> {
    if has_file_name(path) {
        calendar_date_of_text(stem_of(file_name(path)))
    } else {
        None
    }
}

/// What reading the date of a day path gives.
pub open spec fn date_result_matches(path: Seq<char>, r: Result<Date, Error>) -> bool {
    if !has_file_name(path) {
        r matches Err(Error::InvalidDayPath(m)) && m@ == path
    } else {
        match calendar_date_of_text(stem_of(file_name(path))) {
            Some((y, m, d)) => r matches Ok(date) && date.wf() && date.year == y && date.month == m
                && date.day == d,
            None => r matches Err(Error::TimeParse(m)) && m@ == stem_of(file_name(path)),
        }
    }
}

/// Splits a path into the start of its file name.
fn file_name_start(path: &str, n: usize) -> (r: usize)
    requires
        n == path@.len(),
    ensures
        r as int == last_index_before(path@, '/', n as int) + 1,
        r <= n,
{
    proof {
        lemma_last_index_before(path@, '/', n as int);
    }
    match last_index_of(path, n, '/') {
        Some(i) => i + 1,
        None => 0,
    }
}

/// The file name of a path, if it has one.
pub fn file_name_of(path: &str) -> (r: Option<String>)
    ensures
        r is Some <==> has_file_name(path@),
        r matches Some(f) ==> f@ == file_name(path@),
{
    let n = path.unicode_len();
    let start = file_name_start(path, n);
    let f = slice_to_string(path, start, n);
    let len = n - start;
    if len == 0 || (len == 1 && path.get_char(start) == '.') || (len == 2 && path.get_char(start)
        == '.' && path.get_char(start + 1) == '.') {
        proof {
            if len == 1 {
                assert(f@ =~= seq!['.']);
            } else if len == 2 {
                assert(f@ =~= seq!['.', '.']);
            }
        }
        None
    } else {
        proof {
            let one: Seq<char> = seq!['.'];
            let two: Seq<char> = seq!['.', '.'];
            assert(one.len() == 1 && one[0] == '.');
            assert(two.len() == 2 && two[0] == '.' && two[1] == '.');
            if f@ == one {
                assert(f@[0] == path@[start as int]);
            }
            if f@ == two {
                assert(f@[0] == path@[start as int]);
                assert(f@[1] == path@[start + 1]);
            }
        }
        Some(f)
    }
}

/// The stem and extension of a file name.
pub fn split_extension(name: &str) -> (r: (String, Option<String>))
    ensures
        r.0@ == stem_of(name@),
        match extension_of(name@) {
            Some(e) => r.1 matches Some(x) && x@ == e,
            None => r.1 is None,
        },
{
    let n = name.unicode_len();
    proof {
        lemma_last_index_before(name@, '.', n as int);
    }
    match last_index_of(name, n, '.') {
        Some(i) => {
            if i == 0 {
                (String::from_str(name), None)
            } else {
                (slice_to_string(name, 0, i), Some(slice_to_string(name, i + 1, n)))
            }
        },
        None => (String::from_str(name), None),
    }
}

/// Reads the date of a day from its file name.
pub fn date_from_path(path: &str) -> (r: Result<Date, Error>)
    ensures
        date_result_matches(path@, r),
{
    let name = match file_name_of(path) {
        Some(f) => f,
        None => {
            return Err(Error::InvalidDayPath(String::from_str(path)));
        },
    };
    let (stem, _) = split_extension(name.as_str());
    match Date::parse(stem.as_str()) {
        Some(d) => Ok(d),
        None => Err(Error::TimeParse(stem)),
    }
}

/// The date of a day that was read, or the error that came instead.
pub open spec fn date_of_result(r: Result<Day, Error>) -> Result<Date, Error> {
    match r {
        Ok(d) => Ok(d.date),
        Err(e) => Err(e),
    }
}

/// One day's file as tasks and notes.
pub struct Day {
    pub path: String,
    pub date: Date,
    pub tasks: Vec<Task>,
    pub notes: String,
}

impl Day {
    /// An empty day for the file at `path`, dated by its file name.
    pub fn new(path: &str) -> (r: Result<Day, Error>)
        ensures
            date_result_matches(path@, date_of_result(r)),
            r matches Ok(d) ==> d.path@ == path@ && d.tasks@.len() == 0 && d.notes@.len() == 0,
    {
        let date = date_from_path(path)?;
        Ok(Day { path: String::from_str(path), date, tasks: Vec::new(), notes: String::new() })
    }

    /// The day read from the text of its file at `path`.
    pub fn from_content(path: &str, content: &str) -> (r: Result<Day, Error>)
        ensures
            date_result_matches(path@, date_of_result(r)),
            r matches Ok(d) ==> {
                &&& d.path@ == path@
                &&& blocks(d.tasks@) == parse_day_lines(lines_of(content@)).0
                &&& d.notes@ == parse_day_lines(lines_of(content@)).1
                &&& one_level(d.tasks@)
            },
    {
        let (tasks, notes) = parse_day_content(content);
        let date = date_from_path(path)?;
        Ok(Day { path: String::from_str(path), date, tasks, notes })
    }

    /// The text of the day's file: every task with its subtasks, a line
    /// break, then the notes.
    pub fn content(&self) -> (r: String)
        ensures
            r@ == day_text(self.tasks@, self.notes@),
    {
        let mut out = String::new();
        let mut i: usize = 0;
        while i < self.tasks.len()
            invariant
                i <= self.tasks@.len(),
                out@ == tasks_text(self.tasks@.subrange(0, i as int)),
            decreases self.tasks@.len() - i,
        {
            let text = self.tasks[i].to_string();
            proof {
                let s = self.tasks@.subrange(0, i + 1);
                assert(s.drop_last() =~= self.tasks@.subrange(0, i as int));
            }
            out.append(text.as_str());
            i = i + 1;
        }
        assert(self.tasks@.subrange(0, i as int) =~= self.tasks@);
        proof {
            reveal_strlit("\n");
        }
        out.append("\n");
        out.append(self.notes.as_str());
        out
    }
}

/// A directory entry as the day index sees it.
pub struct DirEntry {
    pub path: String,
    pub is_file: bool,
}

/// A day file of the index: its date and path.
pub type DayListing = (Date, String);

/// The day files of a workspace, sorted by date.
pub struct DaysList(pub Vec<DayListing>);

/// Whether an entry can hold a day: a regular file with the day extension
/// that is not the recurring-task template.
pub open spec fn is_day_file(e: DirEntry) -> bool {
    &&& e.is_file
    &&& has_file_name(e.path@)
    &&& extension_of(file_name(e.path@)) == Some(DAY_EXTENSION@)
    &&& file_name(e.path@) != RECURRING_FILE@
}

/// The listing an entry gives: a day file whose stem reads as a date.
pub open spec fn listing_of(e: DirEntry) -> Option<(Date, Seq<char>)> {
    if is_day_file(e) {
        match path_date(e.path@) {
            Some((y, m, d)) => Some((Date { year: y as i32, month: m as u8, day: d as u8 }, e.path@)),
            None => None,
        }
    } else {
        None
    }
}

/// The listings that a list of entries gives, in entry order.
pub open spec fn candidates(es: Seq<DirEntry>) -> Seq<(Date, Seq<char>)> {
    es.filter_map(|e: DirEntry| listing_of(e))
}

pub open spec fn listing_view(l: DayListing) -> (Date, Seq<char>) {
    (l.0, l.1@)
}

/// Whether date `a` comes after date `b`.
pub open spec fn date_after(a: Date, b: Date) -> bool {
    a.year > b.year || (a.year == b.year && (a.month > b.month || (a.month == b.month && a.day
        > b.day)))
}

/// Whether listing `a` comes after listing `b`: by date, and for one date by
/// path in the order of character codes.
pub open spec fn listing_after(a: (Date, Seq<char>), b: (Date, Seq<char>)) -> bool {
    date_after(a.0, b.0) || (a.0 == b.0 && chars_after(a.1, b.1))
}

/// The first position of `s` whose listing comes after `d`.
pub open spec fn first_after(s: Seq<(Date, Seq<char>)>, d: (Date, Seq<char>)) -> int
    decreases s.len(),
{
    if s.len() == 0 {
        0
    } else if listing_after(s[0], d) {
        0
    } else {
        1 + first_after(s.drop_first(), d)
    }
}

/// Listings in date order, listings of one date in path order; equal
/// listings keep the order they came in.
pub open spec fn sort_listings(s: Seq<(Date, Seq<char>)>) -> Seq<(Date, Seq<char>)>
    decreases s.len(),
{
    if s.len() == 0 {
        s
    } else {
        let rest = sort_listings(s.drop_last());
        rest.insert(first_after(rest, s.last()), s.last())
    }
}

proof fn lemma_first_after(s: Seq<(Date, Seq<char>)>, d: (Date, Seq<char>))
    ensures
        0 <= first_after(s, d) <= s.len(),
        forall|j: int| 0 <= j < first_after(s, d) ==> !listing_after(#[trigger] s[j], d),
        first_after(s, d) < s.len() ==> listing_after(s[first_after(s, d)], d),
    decreases s.len(),
{
    if s.len() > 0 && !listing_after(s[0], d) {
        lemma_first_after(s.drop_first(), d);
        assert forall|j: int| 0 <= j < first_after(s, d) implies !listing_after(#[trigger] s[j], d) by {
            if j > 0 {
                assert(s[j] == s.drop_first()[j - 1]);
            }
        }
    }
}

fn position_after(v: &Vec<DayListing>, l: &DayListing) -> (r: usize)
    ensures
        r as int == first_after(v@.map_values(|l: DayListing| listing_view(l)), listing_view(*l)),
{
    let ghost s = v@.map_values(|l: DayListing| listing_view(l));
    let ghost x = listing_view(*l);
    let d = &l.0;
    let mut i: usize = 0;
    assert(s.subrange(0, s.len() as int) =~= s);
    while i < v.len()
        invariant
            i <= v@.len(),
            s == v@.map_values(|l: DayListing| listing_view(l)),
            x == listing_view(*l),
            d == &l.0,
            first_after(s, x) == i + first_after(s.subrange(i as int, s.len() as int), x),
        decreases v@.len() - i,
    {
        let a = &v[i].0;
        proof {
            let t = s.subrange(i as int, s.len() as int);
            assert(t[0] == s[i as int]);
            assert(t.drop_first() =~= s.subrange(i + 1, s.len() as int));
        }
        let later = a.year > d.year || (a.year == d.year && (a.month > d.month || (a.month
            == d.month && a.day > d.day)));
        if later || (*a == *d && chars_after_exec(v[i].1.as_str(), l.1.as_str())) {
            return i;
        }
        i = i + 1;
    }
    i
}

impl DaysList {
    /// The day files among the entries of a workspace directory, sorted by
    /// date, and files of one date by path. An entry whose stem is no date is
    /// left out.
    pub fn from_entries(entries: &Vec<DirEntry>) -> (r: DaysList)
        ensures
            r.0@.map_values(|l: DayListing| listing_view(l)) == sort_listings(
                candidates(entries@),
            ),
    {
        let mut out: Vec<DayListing> = Vec::new();
        let mut i: usize = 0;
        while i < entries.len()
            invariant
                i <= entries@.len(),
                out@.map_values(|l: DayListing| listing_view(l)) == sort_listings(
                    candidates(entries@.subrange(0, i as int)),
                ),
            decreases entries@.len() - i,
        {
            let e = &entries[i];
            let ghost prefix = entries@.subrange(0, i + 1);
            assert(prefix.drop_last() =~= entries@.subrange(0, i as int));
            assert(prefix.last() == *e);
            let ghost before = out@.map_values(|l: DayListing| listing_view(l));
            let mut listing: Option<DayListing> = None;
            if e.is_file {
                if let Some(name) = file_name_of(e.path.as_str()) {
                    let (_, ext) = split_extension(name.as_str());
                    let day_ext = String::from_str(DAY_EXTENSION);
                    let template = String::from_str(RECURRING_FILE);
                    let ext_ok = match ext {
                        Some(x) => x == day_ext,
                        None => false,
                    };
                    if ext_ok && name != template {
                        if let Ok(date) = date_from_path(e.path.as_str()) {
                            listing = Some((date, e.path.clone()));
                        }
                    }
                }
            }
            assert(listing_of(*e) == match listing {
                Some(l) => Some(listing_view(l)),
                None => None::<(Date, Seq<char>)>,
            });
            match listing {
                Some(l) => {
                    let pos = position_after(&out, &l);
                    proof {
                        lemma_first_after(before, listing_view(l));
                    }
                    out.insert(pos, l);
                    assert(out@.map_values(|l: DayListing| listing_view(l)) =~= before.insert(
                        pos as int,
                        listing_view(l),
                    ));
                    let ghost c = candidates(entries@.subrange(0, i as int));
                    assert(candidates(prefix) =~= c.push(
                        listing_view(l),
                    ));
                    assert(c.push(listing_view(l)).drop_last() =~= c);
                },
                None => {
                    assert(candidates(prefix) =~= candidates(entries@.subrange(
                        0,
                        i as int,
                    )));
                },
            }
            i = i + 1;
        }
        assert(entries@.subrange(0, i as int) =~= entries@);
        DaysList(out)
    }

    /// The listing with the latest date, if any.
    pub fn last(&self) -> (r: Option<&DayListing>)
        ensures
            r is None <==> self.0@.len() == 0,
            r matches Some(l) ==> *l == self.0@.last(),
    {
        if self.0.len() == 0 {
            None
        } else {
            Some(&self.0[self.0.len() - 1])
        }
    }
}

proof fn lemma_sort_members(s: Seq<(Date, Seq<char>)>)
    ensures
        sort_listings(s).len() == s.len(),
        forall|k: int| 0 <= k < s.len() ==> s.contains(#[trigger] sort_listings(s)[k]),
    decreases s.len(),
{
    if s.len() > 0 {
        let init = s.drop_last();
        lemma_sort_members(init);
        let rest = sort_listings(init);
        let p = first_after(rest, s.last());
        lemma_first_after(rest, s.last());
        assert forall|k: int| 0 <= k < s.len() implies s.contains(#[trigger] sort_listings(s)[k]) by {
            if k < p {
                assert(sort_listings(s)[k] == rest[k]);
                assert(init.contains(rest[k]));
                let i = choose|i: int| 0 <= i < init.len() && init[i] == rest[k];
                assert(s[i] == init[i]);
            } else if k == p {
                assert(s[s.len() - 1] == s.last());
            } else {
                assert(sort_listings(s)[k] == rest[k - 1]);
                assert(init.contains(rest[k - 1]));
                let i = choose|i: int| 0 <= i < init.len() && init[i] == rest[k - 1];
                assert(s[i] == init[i]);
            }
        }
    }
}

/// Whether some entry that is a day file has the path of the listing.
pub open spec fn from_day_file(es: Seq<DirEntry>, x: (Date, Seq<char>)) -> bool {
    exists|j: int| 0 <= j < es.len() && is_day_file(es[j]) && es[j].path@ == x.1
}

proof fn lemma_listings_from_day_files(es: Seq<DirEntry>)
    ensures
        forall|k: int| 0 <= k < candidates(es).len() ==> from_day_file(es, #[trigger] candidates(es)[k]),
    decreases es.len(),
{
    if es.len() > 0 {
        let init = es.drop_last();
        lemma_listings_from_day_files(init);
        let c = candidates(init);
        assert(candidates(es) == match listing_of(es.last()) {
            Some(x) => c + seq![x],
            None => c,
        });
        assert forall|k: int| 0 <= k < candidates(es).len() implies from_day_file(es, #[trigger] candidates(es)[k]) by {
            let all = candidates(es);
            if k < c.len() {
                assert(all[k] == c[k]);
                assert(from_day_file(init, c[k]));
                let j = choose|j: int|
                    0 <= j < init.len() && is_day_file(init[j]) && init[j].path@ == c[k].1;
                assert(es[j] == init[j]);
            } else {
                assert(listing_of(es.last()) is Some);
                assert(es[es.len() - 1] == es.last());
            }
        }
    } else {
        assert(candidates(es).len() == 0);
    }
}

/// The day index holds day files only: never the recurring-task template,
/// and never a file without the day extension, even one whose stem is a date.
pub proof fn lemma_index_holds_day_files_only(entries: Seq<DirEntry>)
    ensures
        forall|k: int|
            0 <= k < sort_listings(candidates(entries)).len() ==> exists|j: int|
                0 <= j < entries.len() && entries[j].is_file && file_name(entries[j].path@)
                    != RECURRING_FILE@ && extension_of(file_name(entries[j].path@)) == Some(
                    DAY_EXTENSION@,
                ) && entries[j].path@ == (#[trigger] sort_listings(candidates(entries))[k]).1,
{
    let c = candidates(entries);
    lemma_sort_members(c);
    lemma_listings_from_day_files(entries);
    assert forall|k: int| 0 <= k < sort_listings(c).len() implies exists|j: int|
        0 <= j < entries.len() && entries[j].is_file && file_name(entries[j].path@)
            != RECURRING_FILE@ && extension_of(file_name(entries[j].path@)) == Some(
            DAY_EXTENSION@,
        ) && entries[j].path@ == (#[trigger] sort_listings(c)[k]).1 by {
        assert(c.contains(sort_listings(c)[k]));
        let i = choose|i: int| 0 <= i < c.len() && c[i] == sort_listings(c)[k];
        assert(from_day_file(entries, c[i]));
        let j = choose|j: int|
            0 <= j < entries.len() && is_day_file(entries[j]) && entries[j].path@ == c[i].1;
        assert(is_day_file(entries[j]));
    }
}

proof fn lemma_chars_after_asymmetric(a: Seq<char>, b: Seq<char>)
    ensures
        chars_after(a, b) ==> !chars_after(b, a),
    decreases a.len(),
{
    if a.len() > 0 && b.len() > 0 && a[0] == b[0] {
        lemma_chars_after_asymmetric(a.drop_first(), b.drop_first());
    }
}

proof fn lemma_listing_after_asymmetric(a: (Date, Seq<char>), b: (Date, Seq<char>))
    ensures
        listing_after(a, b) ==> !listing_after(b, a),
{
    lemma_chars_after_asymmetric(a.1, b.1);
}

proof fn lemma_sorted(s: Seq<(Date, Seq<char>)>)
    ensures
        sort_listings(s).len() == s.len(),
        forall|i: int|
            0 <= i < sort_listings(s).len() - 1 ==> !listing_after(
                #[trigger] sort_listings(s)[i],
                sort_listings(s)[i + 1],
            ),
        sort_listings(s).to_multiset() == s.to_multiset(),
    decreases s.len(),
{
    if s.len() > 0 {
        let init = s.drop_last();
        lemma_sorted(init);
        let rest = sort_listings(init);
        let x = s.last();
        let p = first_after(rest, x);
        lemma_first_after(rest, x);
        let r = sort_listings(s);
        assert(r == rest.insert(p, x));
        to_multiset_insert(rest, p, x);
        to_multiset_build(init, x);
        assert(init.push(x) =~= s);
        assert forall|i: int| 0 <= i < r.len() - 1 implies !listing_after(#[trigger] r[i], r[i + 1]) by {
            if i + 1 < p {
                assert(r[i] == rest[i] && r[i + 1] == rest[i + 1]);
            } else if i + 1 == p {
                assert(r[i] == rest[i] && r[i + 1] == x);
            } else if i == p {
                assert(r[i] == x && r[i + 1] == rest[p]);
                lemma_listing_after_asymmetric(rest[p], x);
            } else {
                assert(r[i] == rest[i - 1] && r[i + 1] == rest[i]);
            }
        }
    } else {
        assert(sort_listings(s).to_multiset() == s.to_multiset());
    }
}

/// The day index is in order: by date, and files of one date by path. It
/// holds the listing of every day file among the entries, each as often as
/// the entries give it, and nothing else.
pub proof fn lemma_index_sorted_permutation(entries: Seq<DirEntry>)
    ensures
        forall|i: int|
            0 <= i < sort_listings(candidates(entries)).len() - 1 ==> !listing_after(
                #[trigger] sort_listings(candidates(entries))[i],
                sort_listings(candidates(entries))[i + 1],
            ),
        sort_listings(candidates(entries)).to_multiset() == candidates(entries).to_multiset(),
{
    lemma_sorted(candidates(entries));
}

} // verus!

use crate::date::{is_calendar_date, Date};
use crate::error::Error;
use crate::task::{State, Task};
use crate::text::{
    lines_of, occurs_from, skip_space,
    skip_space_exec, slice_to_string, split_lines, contains_char_from, views,
};
use vstd::prelude::*;
use vstd::string::*;

verus! {

/// How often a recurring task comes back.
#[derive(Debug, Clone, Copy, PartialEq, Eq, Structural)]
pub enum Interval {
    Daily,
    Weekly,
    Monthly,
    Weekday,
    Weekend,
    Monday,
    Tuesday,
    Wednesday,
    Thursday,
    Friday,
    Saturday,
    Sunday,
}

/// A template task with the interval on which it recurs.
#[derive(Debug, Clone, PartialEq)]
pub struct RecurringTask {
    pub name: String,
    pub interval: Interval,
}

/// The templates of a workspace, in file order.
#[derive(Debug, Clone, PartialEq, Default)]
pub struct RecurringTasks(pub Vec<RecurringTask>);

/// Whether a task of the given interval is due on a date: `Weekly` lands on
/// Monday like `Monday`, `Monthly` on the first of the month.
pub open spec fn due_on(interval: Interval, date: Date) -> bool {
    let w = date.weekday_spec();
    match interval {
        Interval::Daily => true,
        Interval::Weekly => w == 1,
        Interval::Monthly => date.day == 1,
        Interval::Weekday => w <= 5,
        Interval::Weekend => w > 5,
        Interval::Monday => w == 1,
        Interval::Tuesday => w == 2,
        Interval::Wednesday => w == 3,
        Interval::Thursday => w == 4,
        Interval::Friday => w == 5,
        Interval::Saturday => w == 6,
        Interval::Sunday => w == 7,
    }
}

/// Whether `c` is `k`, or the ASCII capital of `k`.
pub open spec fn same_letter(c: char, k: char) -> bool {
    c == k || ('A' <= c <= 'Z' && (c as u32) + 32 == k as u32)
}

/// Whether `w` spells `keyword` with ASCII case ignored in `w`.
pub open spec fn spells(w: Seq<char>, keyword: Seq<char>) -> bool {
    w.len() == keyword.len() && forall|i: int| 0 <= i < w.len() ==> same_letter(w[i], keyword[i])
}

/// The interval that a word names, case ignored.
pub open spec fn interval_of_word(w: Seq<char>) -> Option<Interval> {
    if spells(w, "daily"@) {
        Some(Interval::Daily)
    } else if spells(w, "weekly"@) {
        Some(Interval::Weekly)
    } else if spells(w, "monthly"@) {
        Some(Interval::Monthly)
    } else if spells(w, "weekday"@) {
        Some(Interval::Weekday)
    } else if spells(w, "weekend"@) {
        Some(Interval::Weekend)
    } else if spells(w, "monday"@) {
        Some(Interval::Monday)
    } else if spells(w, "tuesday"@) {
        Some(Interval::Tuesday)
    } else if spells(w, "wednesday"@) {
        Some(Interval::Wednesday)
    } else if spells(w, "thursday"@) {
        Some(Interval::Thursday)
    } else if spells(w, "friday"@) {
        Some(Interval::Friday)
    } else if spells(w, "saturday"@) {
        Some(Interval::Saturday)
    } else if spells(w, "sunday"@) {
        Some(Interval::Sunday)
    } else {
        None
    }
}

/// The word that an interval is written as.
pub open spec fn interval_word(i: Interval) -> Seq<char> {
    match i {
        Interval::Daily => "daily"@,
        Interval::Weekly => "weekly"@,
        Interval::Monthly => "monthly"@,
        Interval::Weekday => "weekday"@,
        Interval::Weekend => "weekend"@,
        Interval::Monday => "monday"@,
        Interval::Tuesday => "tuesday"@,
        Interval::Wednesday => "wednesday"@,
        Interval::Thursday => "thursday"@,
        Interval::Friday => "friday"@,
        Interval::Saturday => "saturday"@,
        Interval::Sunday => "sunday"@,
    }
}

/// Where the `@` of a template line stands: after the marker, `[`, `]`,
/// each followed by an optional space.
pub open spec fn at_index(l: Seq<char>) -> int {
    let open_pos = skip_space(l, 1);
    let close_pos = skip_space(l, open_pos + 1);
    skip_space(l, close_pos + 1)
}

/// A pattern that matches one word character, as the `regex` crate's `\w`
/// has it: a Unicode letter, mark, digit or connector such as `_`.
pub const WORD_CHAR: &'static str = "\\A\\w\\z";

/// Whether the `regex` crate finds a match of the pattern in the text;
/// nothing when the pattern does not compile.
pub uninterp spec fn regex_is_match(pattern: Seq<char>, text: Seq<char>) -> Option<bool>;

/// Relies on regex::Regex::new and Regex::is_match: whether the compiled
/// pattern matches somewhere in the text, or nothing when it does not
/// compile.
#[verifier::external_body]
fn is_match(pattern: &str, text: &str) -> (r: Option<bool>)
    ensures
        r == regex_is_match(pattern@, text@),
{
    let re = regex::Regex::new(pattern).ok()?;
    Some(re.is_match(text))
}

/// A word character, as the `regex` crate's `\w` has it.
pub open spec fn is_word_char(c: char) -> bool {
    regex_is_match(WORD_CHAR@, seq![c]) == Some(true)
}

/// The first position at or after `from` that holds no word character, or
/// the length of `l` when there is none.
pub open spec fn first_non_word(l: Seq<char>, from: int) -> int
    decreases l.len() - from,
{
    if from >= l.len() {
        l.len() as int
    } else if !is_word_char(l[from]) {
        from
    } else {
        first_non_word(l, from + 1)
    }
}

/// Where the interval word after the `@` ends.
pub open spec fn word_end(l: Seq<char>) -> int {
    first_non_word(l, at_index(l) + 1)
}

fn is_word_char_at(s: &str, n: usize, i: usize) -> (r: bool)
    requires
        n == s@.len(),
        i < n,
    ensures
        r == is_word_char(s@[i as int]),
{
    let c = s.substring_char(i, i + 1);
    assert(c@ =~= seq![s@[i as int]]);
    match is_match(WORD_CHAR, c) {
        Some(b) => b,
        None => false,
    }
}

fn word_end_from(s: &str, n: usize, from: usize) -> (r: usize)
    requires
        n == s@.len(),
        from <= n,
    ensures
        r as int == first_non_word(s@, from as int),
        from <= r <= n,
{
    let mut i: usize = from;
    while i < n
        invariant
            from <= i <= n,
            n == s@.len(),
            first_non_word(s@, from as int) == first_non_word(s@, i as int),
        decreases n - i,
    {
        if !is_word_char_at(s, n, i) {
            return i;
        }
        i = i + 1;
    }
    i
}

/// A template line: `*` or `-`, optional space, `[`, optional space, `]`,
/// optional space, `@`, a word of word characters, one space, then a
/// non-empty name on one line.
pub open spec fn is_template_line(l: Seq<char>) -> bool {
    let open_pos = skip_space(l, 1);
    let close_pos = skip_space(l, open_pos + 1);
    let a = at_index(l);
    let e = word_end(l);
    &&& l.len() >= 2
    &&& (l[0] == '*' || l[0] == '-')
    &&& open_pos < l.len() && l[open_pos] == '['
    &&& close_pos < l.len() && l[close_pos] == ']'
    &&& a < l.len() && l[a] == '@'
    &&& a + 1 < e
    &&& e + 1 < l.len()
    &&& l[e] == ' '
    &&& !occurs_from(l, '\n', e + 1)
}

/// The interval word and the name of a template line.
pub open spec fn template_parts(l: Seq<char>) -> (Seq<char>, Seq<char>) {
    (l.subrange(at_index(l) + 1, word_end(l)), l.subrange(word_end(l) + 1, l.len() as int))
}

/// Whether `w` spells the keyword; the keyword is in small letters.
fn spells_exec(w: &str, keyword: &str) -> (r: bool)
    ensures
        r == spells(w@, keyword@),
{
    let n = w.unicode_len();
    if n != keyword.unicode_len() {
        return false;
    }
    let mut i: usize = 0;
    while i < n
        invariant
            i <= n,
            n == w@.len(),
            n == keyword@.len(),
            forall|j: int| 0 <= j < i ==> same_letter(w@[j], keyword@[j]),
        decreases n - i,
    {
        let c = w.get_char(i);
        let k = keyword.get_char(i);
        if !(c == k || ('A' <= c && c <= 'Z' && (c as u32) + 32 == k as u32)) {
            return false;
        }
        i = i + 1;
    }
    true
}

impl Interval {
    /// Reads an interval word, case ignored.
    pub fn parse(word: &str) -> (r: Result<Interval, Error>)
        ensures
            match interval_of_word(word@) {
                Some(i) => r == Ok::<Interval, Error>(i),
                None => r matches Err(Error::InvalidIntervalSyntax(m)) && m@ == word@,
            },
    {
        if spells_exec(word, "daily") {
            Ok(Interval::Daily)
        } else if spells_exec(word, "weekly") {
            Ok(Interval::Weekly)
        } else if spells_exec(word, "monthly") {
            Ok(Interval::Monthly)
        } else if spells_exec(word, "weekday") {
            Ok(Interval::Weekday)
        } else if spells_exec(word, "weekend") {
            Ok(Interval::Weekend)
        } else if spells_exec(word, "monday") {
            Ok(Interval::Monday)
        } else if spells_exec(word, "tuesday") {
            Ok(Interval::Tuesday)
        } else if spells_exec(word, "wednesday") {
            Ok(Interval::Wednesday)
        } else if spells_exec(word, "thursday") {
            Ok(Interval::Thursday)
        } else if spells_exec(word, "friday") {
            Ok(Interval::Friday)
        } else if spells_exec(word, "saturday") {
            Ok(Interval::Saturday)
        } else if spells_exec(word, "sunday") {
            Ok(Interval::Sunday)
        } else {
            Err(Error::InvalidIntervalSyntax(String::from_str(word)))
        }
    }

    /// The word the interval is written as, in small letters.
    pub fn as_str(&self) -> (r: &'static str)
        ensures
            r@ == interval_word(*self),
    {
        match self {
            Interval::Daily => "daily",
            Interval::Weekly => "weekly",
            Interval::Monthly => "monthly",
            Interval::Weekday => "weekday",
            Interval::Weekend => "weekend",
            Interval::Monday => "monday",
            Interval::Tuesday => "tuesday",
            Interval::Wednesday => "wednesday",
            Interval::Thursday => "thursday",
            Interval::Friday => "friday",
            Interval::Saturday => "saturday",
            Interval::Sunday => "sunday",
        }
    }
}

impl RecurringTask {
    /// Reads a template line. A line of another shape is
    /// `InvalidRecurringTaskSyntax`; an unknown interval word is
    /// `InvalidIntervalSyntax`.
    pub fn parse(line: &str) -> (r: Result<RecurringTask, Error>)
        ensures
            !is_template_line(line@) ==> (r matches Err(Error::InvalidRecurringTaskSyntax(m))
                && m@ == line@),
            is_template_line(line@) ==> match interval_of_word(template_parts(line@).0) {
                Some(i) => r matches Ok(t) && t.interval == i && t.name@ == template_parts(
                    line@,
                ).1,
                None => r matches Err(Error::InvalidIntervalSyntax(m)) && m@ == template_parts(
                    line@,
                ).0,
            },
    {
        let n = line.unicode_len();
        if n < 2 {
            return Err(Error::InvalidRecurringTaskSyntax(String::from_str(line)));
        }
        let marker = line.get_char(0);
        let open_pos = skip_space_exec(line, n, 1);
        if (marker != '*' && marker != '-') || open_pos >= n || line.get_char(open_pos) != '[' {
            return Err(Error::InvalidRecurringTaskSyntax(String::from_str(line)));
        }
        let close_pos = skip_space_exec(line, n, open_pos + 1);
        if close_pos >= n || line.get_char(close_pos) != ']' {
            return Err(Error::InvalidRecurringTaskSyntax(String::from_str(line)));
        }
        let a = skip_space_exec(line, n, close_pos + 1);
        if a >= n || line.get_char(a) != '@' {
            return Err(Error::InvalidRecurringTaskSyntax(String::from_str(line)));
        }
        let e = word_end_from(line, n, a + 1);
        if e <= a + 1 || e >= n - 1 || line.get_char(e) != ' ' || contains_char_from(
            line,
            '\n',
            e + 1,
        ) {
            return Err(Error::InvalidRecurringTaskSyntax(String::from_str(line)));
        }
        let word = slice_to_string(line, a + 1, e);
        let interval = Interval::parse(word.as_str())?;
        Ok(RecurringTask { name: slice_to_string(line, e + 1, n), interval })
    }

    /// The template line: `* [] @<interval> <name>`.
    pub fn to_string(&self) -> (r: String)
        ensures
            r@ == "* [] @"@ + interval_word(self.interval) + seq![' '] + self.name@,
    {
        proof {
            reveal_strlit(" ");
        }
        let mut out = String::from_str("* [] @");
        out.append(self.interval.as_str());
        out.append(" ");
        out.append(self.name.as_str());
        out
    }

    /// Whether the task is due on `date`.
    pub fn is_due(&self, date: &Date) -> (r: bool)
        requires
            date.wf(),
        ensures
            r == due_on(self.interval, *date),
    {
        match self.interval {
            Interval::Daily => true,
            Interval::Monthly => date.day == 1,
            _ => {
                let w = date.weekday();
                match self.interval {
                    Interval::Weekly => w == 1,
                    Interval::Weekday => w <= 5,
                    Interval::Weekend => w > 5,
                    Interval::Monday => w == 1,
                    Interval::Tuesday => w == 2,
                    Interval::Wednesday => w == 3,
                    Interval::Thursday => w == 4,
                    Interval::Friday => w == 5,
                    Interval::Saturday => w == 6,
                    _ => w == 7,
                }
            },
        }
    }

    /// A fresh incomplete task of the same name, without subtasks.
    pub fn to_task(&self) -> (r: Task)
        ensures
            r.name@ == self.name@,
            r.state == State::Incomplete,
            r.subtasks@.len() == 0,
    {
        Task { name: self.name.clone(), state: State::Incomplete, subtasks: Vec::new() }
    }
}

/// The templates of a list that are due on a date, in order.
pub open spec fn due_tasks(ts: Seq<RecurringTask>, date: Date) -> Seq<RecurringTask> {
    ts.filter(|t: RecurringTask| due_on(t.interval, date))
}

/// Whether a line reads as a template with a known interval.
pub open spec fn template_line_reads(l: Seq<char>) -> bool {
    is_template_line(l) && interval_of_word(template_parts(l).0) is Some
}

/// The error that a line that is no readable template gives.
pub open spec fn template_error(l: Seq<char>, e: Error) -> bool {
    if !is_template_line(l) {
        e matches Error::InvalidRecurringTaskSyntax(m) && m@ == l
    } else {
        e matches Error::InvalidIntervalSyntax(m) && m@ == template_parts(l).0
    }
}

/// The templates read from the lines of a text, one per line.
pub open spec fn templates_of(text: Seq<char>, ts: Seq<RecurringTask>) -> bool {
    &&& ts.len() == lines_of(text).len()
    &&& forall|i: int|
        0 <= i < ts.len() ==> {
            &&& (#[trigger] ts[i]).interval == interval_of_word(template_parts(lines_of(text)[i]).0)->0
            &&& ts[i].name@ == template_parts(lines_of(text)[i]).1
        }
}

/// Whether `e` is the error of the first line of the text that does not read.
pub open spec fn first_template_error(text: Seq<char>, e: Error) -> bool {
    exists|i: int|
        0 <= i < lines_of(text).len() && !template_line_reads(lines_of(text)[i]) && template_error(
            lines_of(text)[i],
            e,
        ) && forall|j: int| 0 <= j < i ==> template_line_reads(#[trigger] lines_of(text)[j])
}

/// Whether every line of a text reads as a template.
pub open spec fn template_text_reads(text: Seq<char>) -> bool {
    forall|i: int| 0 <= i < lines_of(text).len() ==> template_line_reads(#[trigger] lines_of(text)[i])
}

impl RecurringTasks {
    /// Reads a template file, one template per line. Any line that cannot be
    /// read fails the whole load with that line's error.
    pub fn parse(content: &str) -> (r: Result<RecurringTasks, Error>)
        ensures
            r is Ok <==> template_text_reads(content@),
            r matches Ok(ts) ==> templates_of(content@, ts.0@),
            r matches Err(e) ==> first_template_error(content@, e),
    {
        let lines = split_lines(content);
        let mut tasks: Vec<RecurringTask> = Vec::new();
        let mut i: usize = 0;
        while i < lines.len()
            invariant
                i <= lines@.len(),
                views(lines@) == lines_of(content@),
                tasks@.len() == i,
                forall|j: int| 0 <= j < i ==> template_line_reads(lines@[j]@),
                forall|j: int| 0 <= j < i ==> {
                    &&& tasks@[j].interval == interval_of_word(template_parts(lines@[j]@).0)->0
                    &&& tasks@[j].name@ == template_parts(lines@[j]@).1
                },
            decreases lines@.len() - i,
        {
            assert(views(lines@)[i as int] == lines@[i as int]@);
            let t = RecurringTask::parse(lines[i].as_str());
            match t {
                Ok(t) => tasks.push(t),
                Err(e) => {
                    assert(template_error(lines@[i as int]@, e));
                    assert(lines_of(content@)[i as int] == lines@[i as int]@);
                    assert forall|j: int| 0 <= j < i implies template_line_reads(#[trigger] lines_of(content@)[j]) by {
                        assert(lines_of(content@)[j] == lines@[j]@);
                    }
                    return Err(e);
                },
            }
            i = i + 1;
        }
        assert forall|j: int| 0 <= j < lines_of(content@).len() implies template_line_reads(#[trigger] lines_of(content@)[j]) by {
            assert(lines_of(content@)[j] == lines@[j]@);
        }
        assert forall|j: int| 0 <= j < tasks@.len() implies {
            &&& (#[trigger] tasks@[j]).interval == interval_of_word(template_parts(lines_of(content@)[j]).0)->0
            &&& tasks@[j].name@ == template_parts(lines_of(content@)[j]).1
        } by {
            assert(lines_of(content@)[j] == lines@[j]@);
        }
        Ok(RecurringTasks(tasks))
    }

    /// The templates due on `date`, in order.
    pub fn for_date(&self, date: &Date) -> (r: Vec<RecurringTask>)
        requires
            date.wf(),
        ensures
            r@ == due_tasks(self.0@, *date),
    {
        let mut out: Vec<RecurringTask> = Vec::new();
        let mut i: usize = 0;
        while i < self.0.len()
            invariant
                i <= self.0@.len(),
                date.wf(),
                out@ == due_tasks(self.0@.subrange(0, i as int), *date),
            decreases self.0@.len() - i,
        {
            let t = &self.0[i];
            proof {
                let s = self.0@.subrange(0, i + 1);
                assert(s.drop_last() =~= self.0@.subrange(0, i as int));
                assert(s.last() == *t);
                reveal(Seq::filter);
                assert(due_tasks(s, *date) == if due_on(t.interval, *date) {
                    due_tasks(s.drop_last(), *date).push(*t)
                } else {
                    due_tasks(s.drop_last(), *date)
                });
            }
            if t.is_due(date) {
                let copy = RecurringTask { name: t.name.clone(), interval: t.interval };
                assert(copy == *t);
                out.push(copy);
            }
            i = i + 1;
        }
        assert(self.0@.subrange(0, i as int) =~= self.0@);
        out
    }
}

/// On how many of the given dates a task of `interval` is due.
pub open spec fn count_due(interval: Interval, dates: Seq<Date>) -> nat
    decreases dates.len(),
{
    if dates.len() == 0 {
        0
    } else {
        count_due(interval, dates.drop_last()) + if due_on(interval, dates.last()) {
            1nat
        } else {
            0nat
        }
    }
}

/// On every date a weekday task is due exactly when a weekend task is not.
pub proof fn lemma_weekday_is_not_weekend(date: Date)
    ensures
        due_on(Interval::Weekday, date) == !due_on(Interval::Weekend, date),
{
}

/// Over any seven consecutive dates a weekday task is due on exactly five.
#[verifier::spinoff_prover]
#[verifier::rlimit(40)]
pub proof fn lemma_weekday_five_of_seven(dates: Seq<Date>)
    requires
        dates.len() == 7,
        forall|i: int| 0 <= i < 7 ==> #[trigger] dates[i].day_number() == dates[0].day_number() + i,
    ensures
        count_due(Interval::Weekday, dates) == 5,
{
    let n = dates[0].day_number();
    let r = (n + 3) % 7;
    assert forall|i: int| 0 <= i < 7 implies #[trigger] dates[i].weekday_spec() == (r + i) % 7 + 1 by {
        assert(dates[i].day_number() == n + i);
        assert((n + i + 3) % 7 == (r + i) % 7) by (nonlinear_arith)
            requires r == (n + 3) % 7;
    }
    reveal_with_fuel(count_due, 8);
    assert(dates.drop_last().drop_last().drop_last().drop_last().drop_last().drop_last().drop_last().len() == 0);
    assert(dates.last() == dates[6]);
    assert(dates.drop_last().last() == dates[5]);
    assert(dates.drop_last().drop_last().last() == dates[4]);
    assert(dates.drop_last().drop_last().drop_last().last() == dates[3]);
    assert(dates.drop_last().drop_last().drop_last().drop_last().last() == dates[2]);
    assert(dates.drop_last().drop_last().drop_last().drop_last().drop_last().last() == dates[1]);
    assert(dates.drop_last().drop_last().drop_last().drop_last().drop_last().drop_last().last() == dates[0]);
}

/// A monthly task is due exactly once in every calendar month: on its first day.
pub proof fn lemma_monthly_once_a_month(year: int, month: int)
    requires
        -9999 <= year <= 9999,
        1 <= month <= 12,
    ensures
        Set::new(
            |d: int|
                is_calendar_date(year, month, d) && due_on(
                    Interval::Monthly,
                    Date { year: year as i32, month: month as u8, day: d as u8 },
                ),
        ) == set![1int],
{
    assert(Set::new(
        |d: int|
            is_calendar_date(year, month, d) && due_on(
                Interval::Monthly,
                Date { year: year as i32, month: month as u8, day: d as u8 },
            ),
    ) =~= set![1int]);
}

} // verus!

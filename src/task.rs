use crate::error::Error;
use crate::text::{contains_char_from, occurs_from, slice_to_string};
use vstd::prelude::*;
use vstd::string::*;

verus! {

/// How far along a task is.
#[derive(Debug, Clone, Copy, PartialEq, Eq, Structural)]
pub enum State {
    Completed,
    Incomplete,
    InProgress,
    Blocked,
}

/// A checklist item with its state and an ordered list of subtasks.
#[derive(Debug, PartialEq)]
pub struct Task {
    pub name: String,
    pub state: State,
    pub subtasks: Vec<Task>,
}

/// The state that the character between the brackets stands for.
pub open spec fn state_of_char(c: char) -> Option<State> {
    if c == 'x' {
        Some(State::Completed)
    } else if c == ' ' {
        Some(State::Incomplete)
    } else if c == '~' {
        Some(State::InProgress)
    } else if c == '#' {
        Some(State::Blocked)
    } else {
        None
    }
}

/// The character that a state is written as.
pub open spec fn char_of_state(s: State) -> char {
    match s {
        State::Completed => 'x',
        State::Incomplete => ' ',
        State::InProgress => '~',
        State::Blocked => '#',
    }
}

/// Where the opening bracket of a task line stands: after the marker and an
/// optional space.
pub open spec fn bracket_index(l: Seq<char>) -> int {
    if l.len() > 1 && l[1] == ' ' {
        2
    } else {
        1
    }
}

/// Where the name of a task line starts: after the closing bracket and an
/// optional space, as long as a character is left for the name.
pub open spec fn name_index(l: Seq<char>) -> int {
    let b = bracket_index(l);
    if l.len() > b + 4 && l[b + 3] == ' ' {
        b + 4
    } else {
        b + 3
    }
}

/// A task line: `*` or `-`, an optional space, `[`, one state character, `]`,
/// an optional space, then a non-empty name on a single line.
pub open spec fn is_task_line(l: Seq<char>) -> bool {
    let b = bracket_index(l);
    &&& l.len() >= b + 4
    &&& (l[0] == '*' || l[0] == '-')
    &&& l[b] == '['
    &&& state_of_char(l[b + 1]) is Some
    &&& l[b + 2] == ']'
    &&& !occurs_from(l, '\n', b + 3)
}

/// The state and name that a task line holds.
pub open spec fn parse_task_line(l: Seq<char>) -> Option<(State, Seq<char>)> {
    if is_task_line(l) {
        Some((state_of_char(l[bracket_index(l) + 1])->0, l.subrange(name_index(l), l.len() as int)))
    } else {
        None
    }
}

/// How a task with the given state and name is written, without the line break.
pub open spec fn task_line(s: State, name: Seq<char>) -> Seq<char> {
    seq!['*', ' ', '[', char_of_state(s), ']', ' '] + name
}

/// The lines written for a list of subtasks, each indented by two spaces.
pub open spec fn subtasks_text(subs: Seq<Task>) -> Seq<char>
    decreases subs.len(),
{
    if subs.len() == 0 {
        Seq::empty()
    } else {
        let last = subs.last();
        subtasks_text(subs.drop_last()) + seq![' ', ' '] + task_line(last.state, last.name@) + seq![
            '\n',
        ]
    }
}

/// A task as text: its own line, then one line per subtask.
pub open spec fn task_text(t: Task) -> Seq<char> {
    task_line(t.state, t.name@) + seq!['\n'] + subtasks_text(t.subtasks@)
}

/// The state that a parent takes from its subtasks.
pub open spec fn derived_state(subs: Seq<Task>) -> State {
    if forall|i: int| 0 <= i < subs.len() ==> subs[i].state == State::Completed {
        State::Completed
    } else if exists|i: int| 0 <= i < subs.len() && subs[i].state == State::InProgress {
        State::InProgress
    } else {
        State::Incomplete
    }
}

/// The state of a task after derivation: derived when it has subtasks, kept
/// otherwise.
pub open spec fn rederived_state(current: State, subs: Seq<Task>) -> State {
    if subs.len() == 0 {
        current
    } else {
        derived_state(subs)
    }
}

/// Writing a task line and reading it back gives the same state and name.
pub proof fn lemma_task_line_round_trip(l: Seq<char>, s: State, n: Seq<char>)
    requires
        parse_task_line(l) == Some((s, n)),
    ensures
        parse_task_line(task_line(s, n)) == Some((s, n)),
{
    let w = task_line(s, n);
    assert(n.len() >= 1);
    assert(bracket_index(w) == 2);
    assert(name_index(w) == 6);
    assert(state_of_char(char_of_state(s)) == Some(s));
    assert forall|i: int| 5 <= i < w.len() implies w[i] != '\n' by {
        if i > 5 {
            assert(w[i] == n[i - 6]);
            assert(l[name_index(l) + i - 6] == n[i - 6]);
        }
    }
    assert(w.subrange(6, w.len() as int) =~= n);
}

/// Appends one task line and its line break.
fn push_task_line(out: &mut String, s: State, name: &str)
    ensures
        final(out)@ == old(out)@ + task_line(s, name@) + seq!['\n'],
{
    proof {
        reveal_strlit("* [");
        reveal_strlit("] ");
        reveal_strlit("\n");
    }
    out.append("* [");
    out.append(s.as_str());
    out.append("] ");
    out.append(name);
    out.append("\n");
    assert(final(out)@ =~= old(out)@ + task_line(s, name@) + seq!['\n']);
}

/// The Slack emoji that a state is shown as.
pub open spec fn emoji_of(s: State) -> Seq<char> {
    match s {
        State::Blocked => ":todo_paused:"@,
        State::Completed => ":todo_done:"@,
        State::InProgress => ":todo_doing:"@,
        State::Incomplete => ":todo:"@,
    }
}

impl State {
    /// Reads a state from its character; any other text is
    /// `InvalidTaskSyntax`.
    pub fn parse(value: &str) -> (r: Result<State, Error>)
        ensures
            value@.len() == 1 && state_of_char(value@[0]) is Some ==> r == Ok::<State, Error>(
                state_of_char(value@[0])->0,
            ),
            !(value@.len() == 1 && state_of_char(value@[0]) is Some) ==> (r matches Err(
                Error::InvalidTaskSyntax(m),
            ) && m@ == value@),
    {
        if value.unicode_len() != 1 {
            return Err(Error::InvalidTaskSyntax(String::from_str(value)));
        }
        let c = value.get_char(0);
        if c == 'x' {
            Ok(State::Completed)
        } else if c == ' ' {
            Ok(State::Incomplete)
        } else if c == '~' {
            Ok(State::InProgress)
        } else if c == '#' {
            Ok(State::Blocked)
        } else {
            Err(Error::InvalidTaskSyntax(String::from_str(value)))
        }
    }

    /// The character the state is written as, between the brackets of a
    /// task line.
    pub fn as_str(&self) -> (r: &'static str)
        ensures
            r@ == seq![char_of_state(*self)],
    {
        match self {
            State::Completed => {
                proof {
                    reveal_strlit("x");
                }
                "x"
            },
            State::Incomplete => {
                proof {
                    reveal_strlit(" ");
                }
                " "
            },
            State::InProgress => {
                proof {
                    reveal_strlit("~");
                }
                "~"
            },
            State::Blocked => {
                proof {
                    reveal_strlit("#");
                }
                "#"
            },
        }
    }

    /// The Slack emoji that the state is shown as.
    pub fn to_emoji(&self) -> (r: String)
        ensures
            r@ == emoji_of(*self),
    {
        let e = match self {
            State::Blocked => ":todo_paused:",
            State::Completed => ":todo_done:",
            State::InProgress => ":todo_doing:",
            State::Incomplete => ":todo:",
        };
        String::from_str(e)
    }
}

impl Task {
    /// Reads a task line; a line of any other shape is `InvalidTaskSyntax`.
    pub fn parse(line: &str) -> (r: Result<Task, Error>)
        ensures
            match parse_task_line(line@) {
                Some((s, n)) => r matches Ok(t) && t.state == s && t.name@ == n
                    && t.subtasks@.len() == 0,
                None => r matches Err(Error::InvalidTaskSyntax(m)) && m@ == line@,
            },
    {
        let n = line.unicode_len();
        let b: usize = if n > 1 && line.get_char(1) == ' ' {
            2
        } else {
            1
        };
        if n < b + 4 {
            return Err(Error::InvalidTaskSyntax(String::from_str(line)));
        }
        let marker = line.get_char(0);
        if (marker != '*' && marker != '-') || line.get_char(b) != '[' || line.get_char(b + 2)
            != ']' {
            return Err(Error::InvalidTaskSyntax(String::from_str(line)));
        }
        let c = line.get_char(b + 1);
        let state = if c == 'x' {
            State::Completed
        } else if c == ' ' {
            State::Incomplete
        } else if c == '~' {
            State::InProgress
        } else if c == '#' {
            State::Blocked
        } else {
            return Err(Error::InvalidTaskSyntax(String::from_str(line)));
        };
        if contains_char_from(line, '\n', b + 3) {
            return Err(Error::InvalidTaskSyntax(String::from_str(line)));
        }
        let start = if n > b + 4 && line.get_char(b + 3) == ' ' {
            b + 4
        } else {
            b + 3
        };
        Ok(Task { name: slice_to_string(line, start, n), state, subtasks: Vec::new() })
    }

    /// The task's line followed by one indented line per subtask, each ending
    /// in a line break.
    pub fn to_string(&self) -> (r: String)
        ensures
            r@ == task_text(*self),
    {
        let mut out = String::new();
        push_task_line(&mut out, self.state, self.name.as_str());
        let mut i: usize = 0;
        while i < self.subtasks.len()
            invariant
                i <= self.subtasks@.len(),
                out@ == task_line(self.state, self.name@) + seq!['\n'] + subtasks_text(
                    self.subtasks@.subrange(0, i as int),
                ),
            decreases self.subtasks@.len() - i,
        {
            proof {
                reveal_strlit("  ");
            }
            let ghost before = out@;
            out.append("  ");
            let sub = &self.subtasks[i];
            push_task_line(&mut out, sub.state, sub.name.as_str());
            proof {
                let subs = self.subtasks@.subrange(0, i + 1);
                assert(subs.drop_last() =~= self.subtasks@.subrange(0, i as int));
                assert(out@ =~= before + seq![' ', ' '] + task_line(sub.state, sub.name@) + seq![
                    '\n',
                ]);
            }
            i = i + 1;
        }
        assert(self.subtasks@.subrange(0, i as int) =~= self.subtasks@);
        out
    }

    /// Appends a subtask, then derives the state again.
    pub fn add_subtask(&mut self, subtask: Task)
        ensures
            final(self).name == old(self).name,
            final(self).subtasks@ == old(self).subtasks@.push(subtask),
            final(self).state == derived_state(final(self).subtasks@),
    {
        self.subtasks.push(subtask);
        self.update_state_from_subtasks();
    }

    /// Removes the subtask at `index`, then derives the state again; `None`
    /// when there is no such subtask.
    pub fn remove_subtask(&mut self, index: usize) -> (r: Option<Task>)
        ensures
            index < old(self).subtasks@.len() ==> {
                &&& r == Some(old(self).subtasks@[index as int])
                &&& final(self).name == old(self).name
                &&& final(self).subtasks@ == old(self).subtasks@.remove(index as int)
                &&& final(self).state == rederived_state(old(self).state, final(self).subtasks@)
            },
            index >= old(self).subtasks@.len() ==> r is None && *final(self) == *old(self),
    {
        if index < self.subtasks.len() {
            let subtask = self.subtasks.remove(index);
            self.update_state_from_subtasks();
            Some(subtask)
        } else {
            None
        }
    }

    /// Marks the subtask at `index` as completed, then derives the state
    /// again; `false` when there is no such subtask.
    pub fn mark_subtask_complete(&mut self, index: usize) -> (r: bool)
        ensures
            r == (index < old(self).subtasks@.len()),
            r ==> {
                &&& final(self).name == old(self).name
                &&& final(self).subtasks@ == old(self).subtasks@.update(
                    index as int,
                    Task { state: State::Completed, ..old(self).subtasks@[index as int] },
                )
                &&& final(self).state == derived_state(final(self).subtasks@)
            },
            !r ==> *final(self) == *old(self),
    {
        if index < self.subtasks.len() {
            let mut subtask = self.subtasks.remove(index);
            subtask.state = State::Completed;
            self.subtasks.insert(index, subtask);
            assert(self.subtasks@ =~= old(self).subtasks@.update(
                index as int,
                Task { state: State::Completed, ..old(self).subtasks@[index as int] },
            ));
            self.update_state_from_subtasks();
            true
        } else {
            false
        }
    }

    /// Sets the state from the subtasks when there are any: all completed
    /// gives `Completed`, else any in progress gives `InProgress`, else
    /// `Incomplete`.
    pub fn update_state_from_subtasks(&mut self)
        ensures
            final(self).name == old(self).name,
            final(self).subtasks == old(self).subtasks,
            final(self).state == rederived_state(old(self).state, old(self).subtasks@),
    {
        if self.subtasks.len() == 0 {
            return ;
        }
        let mut all_complete = true;
        let mut any_in_progress = false;
        let mut i: usize = 0;
        while i < self.subtasks.len()
            invariant
                i <= self.subtasks@.len(),
                all_complete == forall|j: int|
                    0 <= j < i ==> self.subtasks@[j].state == State::Completed,
                any_in_progress == exists|j: int|
                    0 <= j < i && self.subtasks@[j].state == State::InProgress,
            decreases self.subtasks@.len() - i,
        {
            let s = self.subtasks[i].state;
            if s != State::Completed {
                all_complete = false;
            }
            if s == State::InProgress {
                any_in_progress = true;
            }
            i = i + 1;
        }
        if all_complete {
            self.state = State::Completed;
        } else if any_in_progress {
            self.state = State::InProgress;
        } else {
            self.state = State::Incomplete;
        }
    }

    /// Whether the task has any subtasks.
    pub fn has_subtasks(&self) -> (r: bool)
        ensures
            r == (self.subtasks@.len() > 0),
    {
        self.subtasks.len() > 0
    }
}

/// Derivation after a change to the subtasks: with every subtask completed
/// the parent is completed, and with no subtasks its state is left as it was.
pub proof fn lemma_derivation(current: State, subs: Seq<Task>)
    ensures
        subs.len() > 0 && (forall|i: int| 0 <= i < subs.len() ==> subs[i].state == State::Completed)
            ==> rederived_state(current, subs) == State::Completed,
        subs.len() == 0 ==> rederived_state(current, subs) == current,
        rederived_state(current, subs) != State::Blocked || (subs.len() == 0 && current
            == State::Blocked),
{
}

} // verus!

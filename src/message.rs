use crate::day::Day;
use crate::task::{emoji_of, Task};
use vstd::prelude::*;
use vstd::string::*;

verus! {

/// A rule that rewrites task names before they are shown: every match of the
/// regular expression `from` is replaced by `to`, where `$1`, `$name` and the
/// like stand for capture groups.
#[derive(Debug, Clone, PartialEq)]
pub struct Rewrite {
    pub from: String,
    pub to: String,
}

/// What the `regex` crate makes of a text when every match of a pattern is
/// replaced; nothing when the pattern does not compile.
pub uninterp spec fn regex_replaced(pattern: Seq<char>, text: Seq<char>, replacement: Seq<char>) -> Option<Seq<char>>;

/// Relies on regex::Regex::new and Regex::replace_all: a pattern that
/// compiles gives the text with all matches replaced; one that does not
/// compile gives nothing.
#[verifier::external_body]
fn replace_all(pattern: &str, text: &str, replacement: &str) -> (r: Option<String>)
    ensures
        match regex_replaced(pattern@, text@, replacement@) {
            Some(x) => r matches Some(y) && y@ == x,
            None => r is None,
        },
{
    let re = regex::Regex::new(pattern).ok()?;
    Some(re.replace_all(text, replacement).into_owned())
}

/// A text after one rewrite; a rule whose pattern does not compile leaves it
/// as it is.
pub open spec fn rewrite_once(rule: Rewrite, text: Seq<char>) -> Seq<char> {
    match regex_replaced(rule.from@, text, rule.to@) {
        Some(x) => x,
        None => text,
    }
}

/// A name after every rewrite, in order.
pub open spec fn rewritten(name: Seq<char>, rules: Seq<Rewrite>) -> Seq<char>
    decreases rules.len(),
{
    if rules.len() == 0 {
        name
    } else {
        rewrite_once(rules.last(), rewritten(name, rules.drop_last()))
    }
}

/// The message line of a task without subtasks: its emoji, a space, and its
/// rewritten name.
pub open spec fn entry_line(t: Task, rules: Seq<Rewrite>) -> Seq<char> {
    emoji_of(t.state) + seq![' '] + rewritten(t.name@, rules) + seq!['\n']
}

/// The message lines of a list of subtasks.
pub open spec fn entry_lines(ts: Seq<Task>, rules: Seq<Rewrite>) -> Seq<char>
    decreases ts.len(),
{
    if ts.len() == 0 {
        Seq::empty()
    } else {
        entry_lines(ts.drop_last(), rules) + entry_line(ts.last(), rules)
    }
}

/// The message for a day's tasks. A task without subtasks is one line; a
/// task with subtasks is a block: a blank line unless it comes first, its
/// name in bold (not rewritten), a line per subtask, then a blank line.
pub open spec fn message_text(ts: Seq<Task>, rules: Seq<Rewrite>) -> Seq<char>
    decreases ts.len(),
{
    if ts.len() == 0 {
        Seq::empty()
    } else {
        let prev = message_text(ts.drop_last(), rules);
        let t = ts.last();
        if t.subtasks@.len() == 0 {
            prev + entry_line(t, rules)
        } else {
            let head = if prev.len() > 0 {
                prev + seq!['\n']
            } else {
                prev
            };
            head + seq!['*'] + t.name@ + seq!['*', '\n'] + entry_lines(t.subtasks@, rules) + seq![
                '\n',
            ]
        }
    }
}

impl Rewrite {
    /// Applies the rule to `text`; a pattern that does not compile leaves it
    /// unchanged.
    pub fn rewrite(&self, text: &mut String)
        ensures
            final(text)@ == rewrite_once(*self, old(text)@),
    {
        if let Some(r) = replace_all(self.from.as_str(), text.as_str(), self.to.as_str()) {
            *text = r;
        }
    }
}

/// A name after every rewrite, in order.
pub fn rewrite_name(name: &str, rewrites: &Vec<Rewrite>) -> (r: String)
    ensures
        r@ == rewritten(name@, rewrites@),
{
    let mut out = String::from_str(name);
    let mut i: usize = 0;
    while i < rewrites.len()
        invariant
            i <= rewrites@.len(),
            out@ == rewritten(name@, rewrites@.subrange(0, i as int)),
        decreases rewrites@.len() - i,
    {
        proof {
            let s = rewrites@.subrange(0, i + 1);
            assert(s.drop_last() =~= rewrites@.subrange(0, i as int));
        }
        rewrites[i].rewrite(&mut out);
        i = i + 1;
    }
    assert(rewrites@.subrange(0, i as int) =~= rewrites@);
    out
}

fn push_entry(out: &mut String, t: &Task, rewrites: &Vec<Rewrite>)
    ensures
        final(out)@ == old(out)@ + entry_line(*t, rewrites@),
{
    proof {
        reveal_strlit(" ");
        reveal_strlit("\n");
    }
    let emoji = t.state.to_emoji();
    out.append(emoji.as_str());
    out.append(" ");
    let name = rewrite_name(t.name.as_str(), rewrites);
    out.append(name.as_str());
    out.append("\n");
    assert(final(out)@ =~= old(out)@ + entry_line(*t, rewrites@));
}

impl Day {
    /// The day's tasks as a Slack message, with the rewrites applied to the
    /// names of tasks and subtasks.
    pub fn to_message(&self, rewrites: &Vec<Rewrite>) -> (r: String)
        ensures
            r@ == message_text(self.tasks@, rewrites@),
    {
        let mut text = String::new();
        let mut i: usize = 0;
        while i < self.tasks.len()
            invariant
                i <= self.tasks@.len(),
                text@ == message_text(self.tasks@.subrange(0, i as int), rewrites@),
            decreases self.tasks@.len() - i,
        {
            let t = &self.tasks[i];
            proof {
                let s = self.tasks@.subrange(0, i + 1);
                assert(s.drop_last() =~= self.tasks@.subrange(0, i as int));
            }
            if t.subtasks.len() == 0 {
                push_entry(&mut text, t, rewrites);
            } else {
                proof {
                    reveal_strlit("\n");
                    reveal_strlit("*");
                    reveal_strlit("*\n");
                }
                let ghost prev = text@;
                if text.unicode_len() > 0 {
                    text.append("\n");
                }
                let ghost head = text@;
                assert(head == if prev.len() > 0 {
                    prev + seq!['\n']
                } else {
                    prev
                });
                text.append("*");
                text.append(t.name.as_str());
                text.append("*\n");
                let ghost before_subs = text@;
                assert(before_subs =~= head + seq!['*'] + t.name@ + seq!['*', '\n']);
                let mut j: usize = 0;
                while j < t.subtasks.len()
                    invariant
                        j <= t.subtasks@.len(),
                        text@ == before_subs + entry_lines(t.subtasks@.subrange(0, j as int), rewrites@),
                    decreases t.subtasks@.len() - j,
                {
                    proof {
                        let s = t.subtasks@.subrange(0, j + 1);
                        assert(s.drop_last() =~= t.subtasks@.subrange(0, j as int));
                    }
                    push_entry(&mut text, &t.subtasks[j], rewrites);
                    j = j + 1;
                }
                assert(t.subtasks@.subrange(0, j as int) =~= t.subtasks@);
                text.append("\n");
                assert(text@ =~= head + seq!['*'] + t.name@ + seq!['*', '\n'] + entry_lines(t.subtasks@, rewrites@) + seq!['\n']);
            }
            i = i + 1;
        }
        assert(self.tasks@.subrange(0, i as int) =~= self.tasks@);
        text
    }
}

} // verus!

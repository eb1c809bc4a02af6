use crate::date::Date;
use vstd::prelude::*;
use vstd::string::*;

verus! {

/// The Slack message that was posted for a day.
#[derive(Debug, Clone, PartialEq)]
pub struct SlackDayState {
    pub channel_id: String,
    pub ts: String,
    pub date: Date,
}

/// What to do with a day's message: update the one posted before, by its
/// timestamp, or post a new one.
#[derive(Debug, Clone, PartialEq)]
pub enum SyncAction {
    Update(String),
    Post,
}

/// The first position of a posted message for `date`, or the length of the
/// list when there is none.
pub open spec fn first_state_for(states: Seq<SlackDayState>, date: Date, from: int) -> int
    decreases states.len() - from,
{
    if from >= states.len() {
        states.len() as int
    } else if states[from].date == date {
        from
    } else {
        first_state_for(states, date, from + 1)
    }
}

/// Whether the message for `date` is to be updated or posted.
pub fn sync_action(states: &Vec<SlackDayState>, date: &Date) -> (r: SyncAction)
    ensures
        ({
            let i = first_state_for(states@, *date, 0);
            if i < states@.len() {
                r matches SyncAction::Update(ts) && ts@ == states@[i].ts@
            } else {
                r is Post
            }
        }),
{
    let mut i: usize = 0;
    while i < states.len()
        invariant
            i <= states@.len(),
            first_state_for(states@, *date, 0) == first_state_for(states@, *date, i as int),
        decreases states@.len() - i,
    {
        if states[i].date == *date {
            return SyncAction::Update(states[i].ts.clone());
        }
        i = i + 1;
    }
    SyncAction::Post
}

/// Records the answer to a new post: when it succeeded and gave a
/// timestamp, the message is added to the states for `date` and `true` says
/// that the states are to be saved; otherwise nothing changes.
pub fn record_post(
    states: &mut Vec<SlackDayState>,
    channel_id: &str,
    date: &Date,
    ok: bool,
    ts: Option<String>,
) -> (r: bool)
    ensures
        r == (ok && ts is Some),
        r ==> final(states)@.len() == old(states)@.len() + 1 && final(states)@.drop_last() == old(
            states,
        )@ && final(states)@.last().channel_id@ == channel_id@ && final(states)@.last().ts@
            == ts->Some_0@ && final(states)@.last().date == *date,
        !r ==> final(states)@ == old(states)@,
{
    if ok {
        if let Some(t) = ts {
            states.push(SlackDayState { channel_id: String::from_str(channel_id), ts: t, date: *date });
            assert(final(states)@.drop_last() =~= old(states)@);
            return true;
        }
    }
    false
}

} // verus!

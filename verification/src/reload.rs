//! Change detection: the debounce state machine that turns a burst of
//! filesystem events into a single rebuild trigger.
//!
//! Watching the filesystem and running the rebuild are outside concerns; the
//! decisions — which events count, when the timer fires, what path is
//! reported — are owned and verified here.

use vstd::prelude::*;

verus! {

use vstd::string::StrSliceExecFns;
use crate::strings::{file_name_spec, file_name_of};

/// A path names a hidden file: its final segment starts with a dot. Editors
/// drop such files next to the sources; changes to them are never build
/// input.
pub open spec fn is_hidden_spec(path: Seq<char>) -> bool {
    file_name_spec(path).len() > 0 && file_name_spec(path)[0] == '.'
}

pub fn is_hidden(path: &str) -> (r: bool)
    ensures
        r == is_hidden_spec(path@),
{
    let name = file_name_of(path);
    if name.as_str().unicode_len() > 0 {
        name.as_str().get_char(0) == '.'
    } else {
        false
    }
}

/// The debouncer is either quiet, or counting down from the last event seen.
#[derive(Debug)]
pub enum DebounceState {
    Idle,
    Pending { path: String, deadline: u64 },
}

/// The spec-level form of the debouncer's state.
pub enum DebounceStateS {
    Idle,
    Pending { path: Seq<char>, deadline: int },
}

impl View for DebounceState {
    type V = DebounceStateS;

    open spec fn view(&self) -> DebounceStateS {
        match self {
            DebounceState::Idle => DebounceStateS::Idle,
            DebounceState::Pending { path, deadline } => DebounceStateS::Pending {
                path: path@,
                deadline: *deadline as int,
            },
        }
    }
}

/// A sum clipped to the range of the machine clock.
pub open spec fn sat_add(a: int, b: int) -> int {
    if a + b <= u64::MAX as int {
        a + b
    } else {
        u64::MAX as int
    }
}

/// What one filesystem event does to the state: a hidden file changes
/// nothing; any other path starts (or restarts) the countdown, to run out a
/// full window after this event.
pub open spec fn on_event_spec(s: DebounceStateS, window: int, path: Seq<char>, now: int)
    -> DebounceStateS {
    if is_hidden_spec(path) {
        s
    } else {
        DebounceStateS::Pending { path, deadline: sat_add(now, window) }
    }
}

/// What a timer check at `now` does: nothing while quiet or still counting;
/// once the deadline has passed with no further event, the last path fires
/// and the state returns to quiet.
pub open spec fn poll_spec(s: DebounceStateS, now: int) -> (DebounceStateS, Option<Seq<char>>) {
    match s {
        DebounceStateS::Idle => (s, None),
        DebounceStateS::Pending { path, deadline } => {
            if now >= deadline {
                (DebounceStateS::Idle, Some(path))
            } else {
                (s, None)
            }
        },
    }
}

/// The debounce timer of one watched root.
#[derive(Debug)]
pub struct Debouncer {
    /// How long the quiet period must last, in milliseconds.
    pub window: u64,
    pub state: DebounceState,
}

impl Debouncer {
    /// A quiet debouncer with the given window.
    pub fn new(window: u64) -> (r: Debouncer)
        ensures
            r.window == window,
            r.state@ is Idle,
    {
        Debouncer { window, state: DebounceState::Idle }
    }

    /// Record a filesystem event for `path` arriving at time `now`.
    pub fn on_event(&mut self, path: &str, now: u64)
        ensures
            final(self).window == old(self).window,
            final(self).state@ == on_event_spec(old(self).state@, old(self).window as int, path@,
                now as int),
    {
        if is_hidden(path) {
            return ;
        }
        let deadline: u64 = if now <= u64::MAX - self.window {
            now + self.window
        } else {
            u64::MAX
        };
        self.state = DebounceState::Pending { path: path.to_owned(), deadline };
    }

    /// Check the timer at time `now`; the returned path, when there is one,
    /// is the trigger for one rebuild.
    pub fn poll(&mut self, now: u64) -> (r: Option<String>)
        ensures
            final(self).window == old(self).window,
            final(self).state@ == poll_spec(old(self).state@, now as int).0,
            match r {
                Some(p) => poll_spec(old(self).state@, now as int).1 == Some(p@),
                None => poll_spec(old(self).state@, now as int).1 is None,
            },
    {
        let fire = match &self.state {
            DebounceState::Idle => false,
            DebounceState::Pending { path: _, deadline } => now >= *deadline,
        };
        if fire {
            let p = match &self.state {
                DebounceState::Pending { path, deadline: _ } => path.clone(),
                DebounceState::Idle => String::new(),
            };
            self.state = DebounceState::Idle;
            Some(p)
        } else {
            None
        }
    }
}

/// The state after a whole sequence of events, each a time and a path.
pub open spec fn run_events(s: DebounceStateS, window: int, evs: Seq<(int, Seq<char>)>)
    -> DebounceStateS
    decreases evs.len(),
{
    if evs.len() == 0 {
        s
    } else {
        run_events(on_event_spec(s, window, evs[0].1, evs[0].0), window, evs.drop_first())
    }
}

proof fn lemma_run_events_pending(s: DebounceStateS, window: int, evs: Seq<(int, Seq<char>)>)
    requires
        evs.len() > 0,
        forall|i: int| 0 <= i < evs.len() ==> !is_hidden_spec((#[trigger] evs[i]).1),
    ensures
        run_events(s, window, evs) == (DebounceStateS::Pending {
            path: evs.last().1,
            deadline: sat_add(evs.last().0, window),
        }),
    decreases evs.len(),
{
    let s1 = on_event_spec(s, window, evs[0].1, evs[0].0);
    if evs.len() == 1 {
        assert(evs.drop_first().len() == 0);
    } else {
        assert(evs.drop_first().len() > 0);
        assert(forall|i: int|
            0 <= i < evs.drop_first().len() ==> !is_hidden_spec(
                (#[trigger] evs.drop_first()[i]).1,
            ));
        lemma_run_events_pending(s1, window, evs.drop_first());
        assert(evs.drop_first().last() == evs.last());
    }
}

/// Law: however many events arrive within one burst, the debouncer fires
/// exactly once for it. Checks made while the burst is still running out
/// trigger nothing; the check after the window has run out reports the last
/// path seen and returns the timer to quiet, where a further check triggers
/// nothing; only a fresh event can start a second, independent countdown.
pub proof fn lemma_debounce_single_fire(
    s0: DebounceStateS,
    window: int,
    evs: Seq<(int, Seq<char>)>,
    t_early: int,
    t_fire: int,
    t_again: int,
)
    requires
        evs.len() > 0,
        forall|i: int| 0 <= i < evs.len() ==> !is_hidden_spec((#[trigger] evs[i]).1),
        t_early < sat_add(evs.last().0, window),
        t_fire >= sat_add(evs.last().0, window),
    ensures
        poll_spec(run_events(s0, window, evs), t_early).1 is None,
        poll_spec(run_events(s0, window, evs), t_early).0 == run_events(s0, window, evs),
        poll_spec(run_events(s0, window, evs), t_fire).1 == Some(evs.last().1),
        poll_spec(run_events(s0, window, evs), t_fire).0 is Idle,
        poll_spec(poll_spec(run_events(s0, window, evs), t_fire).0, t_again).1 is None,
{
    lemma_run_events_pending(s0, window, evs);
}

/// Law: a change to a hidden file neither starts nor resets the countdown,
/// whatever state the debouncer stands in.
pub proof fn lemma_hidden_file_ignored(s: DebounceStateS, window: int, path: Seq<char>, now: int)
    requires
        is_hidden_spec(path),
    ensures
        on_event_spec(s, window, path, now) == s,
{
}

} // verus!

//! The edge-triggered detection state of the watched processes.
//!
//! A watched process is "detected" from the round in which it is seen
//! running until the round in which it is seen not running. Its actions are
//! carried out once per start, on the round that detects it.

use vstd::prelude::*;
use sysinfo::System;
use crate::config::MonitorConfig;
use crate::process::{is_process_running, process_names, runs_process_named};

verus! {

/// What one observation of a watched process comes to.
#[derive(Debug, Clone, Copy, PartialEq, Eq, Structural)]
pub enum Transition {
    /// It runs and was not detected: carry out its actions.
    Started,
    /// It no longer runs.
    Stopped,
    /// Nothing changed.
    Unchanged,
}

/// The transition of a process that was (or was not) detected and is now
/// seen running (or not).
pub open spec fn transition_of(was_detected: bool, is_running: bool) -> Transition {
    if is_running && !was_detected {
        Transition::Started
    } else if !is_running && was_detected {
        Transition::Stopped
    } else {
        Transition::Unchanged
    }
}

/// The detection flag of each watched process, by its index in the
/// configuration, with the observations made of it so far.
pub struct MonitorState {
    detected: Vec<bool>,
    history: Ghost<Seq<Seq<bool>>>,
}

impl View for MonitorState {
    type V = Seq<bool>;

    closed spec fn view(&self) -> Seq<bool> {
        self.detected@
    }
}

impl MonitorState {
    /// For each watched process, whether it was seen running in each round
    /// so far, oldest first.
    pub closed spec fn history(&self) -> Seq<Seq<bool>> {
        self.history@
    }

    /// Each detection flag is what the observations of that process so far
    /// leave it at: the last one, or not detected before any.
    pub open spec fn wf(&self) -> bool {
        &&& self.history().len() == self@.len()
        &&& forall|i: int|
            0 <= i < self@.len() ==> #[trigger] self@[i] == detected_after(false, self.history()[i])
    }

    /// The state before the first round: no process is detected, and none
    /// was observed yet.
    pub fn new(count: usize) -> (r: MonitorState)
        ensures
            r.wf(),
            r@ == Seq::new(count as nat, |i: int| false),
            r.history() == Seq::new(count as nat, |i: int| Seq::<bool>::empty()),
    {
        let mut detected: Vec<bool> = Vec::new();
        let mut i: usize = 0;
        while i < count
            invariant
                i <= count,
                detected@ == Seq::new(i as nat, |k: int| false),
            decreases count - i,
        {
            detected.push(false);
            i = i + 1;
        }
        MonitorState {
            detected,
            history: Ghost(Seq::new(count as nat, |k: int| Seq::<bool>::empty())),
        }
    }

    /// The number of watched processes.
    pub fn len(&self) -> (r: usize)
        ensures
            r == self@.len(),
    {
        self.detected.len()
    }

    /// Whether the process at `index` is detected.
    pub fn is_detected(&self, index: usize) -> (r: bool)
        requires
            index < self@.len(),
        ensures
            r == self@[index as int],
    {
        self.detected[index]
    }

    /// Records whether the process at `index` is running, and says what
    /// changed: it becomes detected exactly when it runs. The transition is
    /// the last of `trace_events` over all the observations of that process.
    pub fn observe(&mut self, index: usize, is_running: bool) -> (t: Transition)
        requires
            index < old(self)@.len(),
            old(self).wf(),
        ensures
            final(self).wf(),
            final(self)@ == old(self)@.update(index as int, is_running),
            final(self).history() == old(self).history().update(
                index as int,
                old(self).history()[index as int].push(is_running),
            ),
            t == transition_of(old(self)@[index as int], is_running),
            t == trace_events(false, final(self).history()[index as int]).last(),
    {
        let ghost obs = self.history@[index as int];
        proof {
            lemma_trace_extends(false, obs, is_running);
        }
        let was_detected = self.detected[index];
        self.detected.set(index, is_running);
        self.history = Ghost(self.history@.update(index as int, obs.push(is_running)));
        assert(detected_after(false, obs.push(is_running)) == is_running);
        if is_running && !was_detected {
            Transition::Started
        } else if !is_running && was_detected {
            Transition::Stopped
        } else {
            Transition::Unchanged
        }
    }

    /// One round: looks up each watched process in the process table, in the
    /// configuration's order, and records it; returns the transition of each.
    pub fn observe_round(&mut self, sys: &System, config: &MonitorConfig) -> (r: Vec<Transition>)
        requires
            old(self)@.len() == config.process@.len(),
            old(self).wf(),
        ensures
            final(self).wf(),
            final(self)@.len() == old(self)@.len(),
            r@.len() == old(self)@.len(),
            forall|i: int|
                0 <= i < old(self)@.len() ==> {
                    let running = runs_process_named(
                        process_names(*sys),
                        config.process@[i].monitored@,
                    );
                    &&& final(self)@[i] == running
                    &&& final(self).history()[i] == old(self).history()[i].push(running)
                    &&& #[trigger] r@[i] == transition_of(old(self)@[i], running)
                    &&& r@[i] == trace_events(false, final(self).history()[i]).last()
                },
    {
        let ghost before = self@;
        let ghost before_history = self.history();
        let mut r: Vec<Transition> = Vec::new();
        let mut i: usize = 0;
        while i < config.process.len()
            invariant
                0 <= i <= config.process@.len(),
                before.len() == config.process@.len(),
                before_history.len() == before.len(),
                self.wf(),
                self@.len() == before.len(),
                r@.len() == i,
                forall|k: int| i <= k < before.len() ==> #[trigger] self@[k] == before[k],
                forall|k: int|
                    i <= k < before.len() ==> #[trigger] self.history()[k] == before_history[k],
                forall|k: int|
                    0 <= k < i ==> {
                        let running = runs_process_named(
                            process_names(*sys),
                            config.process@[k].monitored@,
                        );
                        &&& self@[k] == running
                        &&& self.history()[k] == before_history[k].push(running)
                        &&& #[trigger] r@[k] == transition_of(before[k], running)
                        &&& r@[k] == trace_events(false, self.history()[k]).last()
                    },
            decreases config.process@.len() - i,
        {
            let running = is_process_running(sys, config.process[i].monitored.as_str());
            let t = self.observe(i, running);
            r.push(t);
            i = i + 1;
        }
        r
    }
}

/// The detection flag of one process after it was observed as in `obs`,
/// starting from `initial`: the last observation, if any.
pub open spec fn detected_after(initial: bool, obs: Seq<bool>) -> bool {
    if obs.len() == 0 {
        initial
    } else {
        obs.last()
    }
}

/// The transitions of one process observed as in `obs`, round after round,
/// starting from `initial`.
pub open spec fn trace_events(initial: bool, obs: Seq<bool>) -> Seq<Transition>
    decreases obs.len(),
{
    if obs.len() == 0 {
        Seq::empty()
    } else {
        trace_events(initial, obs.drop_last()).push(
            transition_of(detected_after(initial, obs.drop_last()), obs.last()),
        )
    }
}

/// The observation before round `i`, or the initial flag before the first.
pub open spec fn observed_before(initial: bool, obs: Seq<bool>, i: int) -> bool {
    if i == 0 {
        initial
    } else {
        obs[i - 1]
    }
}

/// Observing a process once more adds one transition to its trace, and
/// leaves the earlier ones as they were: successive calls of `observe` report,
/// one after the other, exactly `trace_events` of all the observations.
pub proof fn lemma_trace_extends(initial: bool, obs: Seq<bool>, is_running: bool)
    ensures
        trace_events(initial, obs.push(is_running)) == trace_events(initial, obs).push(
            transition_of(detected_after(initial, obs), is_running),
        ),
        detected_after(initial, obs.push(is_running)) == is_running,
{
    assert(obs.push(is_running).drop_last() == obs);
}

/// Each round's transition depends only on that round's observation and the
/// one before it: a process is reported started exactly when it is seen
/// running after being seen not running (or after the initial undetected
/// state), and stopped exactly on the opposite edge.
pub proof fn lemma_transitions_follow_edges(initial: bool, obs: Seq<bool>)
    ensures
        trace_events(initial, obs).len() == obs.len(),
        forall|i: int|
            0 <= i < obs.len() ==> #[trigger] trace_events(initial, obs)[i] == transition_of(
                observed_before(initial, obs, i),
                obs[i],
            ),
    decreases obs.len(),
{
    if obs.len() > 0 {
        let prev = obs.drop_last();
        lemma_transitions_follow_edges(initial, prev);
        assert forall|i: int| 0 <= i < obs.len() implies #[trigger] trace_events(initial, obs)[i]
            == transition_of(observed_before(initial, obs, i), obs[i]) by {
            if i < obs.len() - 1 {
                assert(trace_events(initial, obs)[i] == trace_events(initial, prev)[i]);
                assert(observed_before(initial, obs, i) == observed_before(initial, prev, i));
            }
        }
    }
}

/// A change is reported exactly when the observation differs from the
/// detection flag: a start when the process now runs, a stop when it no
/// longer does.
pub proof fn lemma_transition_reports_change(was_detected: bool, is_running: bool)
    ensures
        transition_of(was_detected, is_running) != Transition::Unchanged <==> was_detected
            != is_running,
        transition_of(was_detected, is_running) == Transition::Started ==> is_running,
        transition_of(was_detected, is_running) == Transition::Stopped ==> !is_running,
{
}

/// Observing a process twice in the same state reports nothing the second
/// time, and leaves its detection flag as it was: its actions are not
/// carried out again while it keeps running.
pub proof fn lemma_repeated_observation_is_quiet(was_detected: bool, is_running: bool)
    ensures
        transition_of(is_running, is_running) == Transition::Unchanged,
        transition_of(was_detected, is_running) != Transition::Unchanged ==> was_detected
            != is_running,
{
}

/// Between two rounds `i < j` in which nothing changes, the observation stays
/// the same.
proof fn lemma_quiet_rounds_keep_observation(initial: bool, obs: Seq<bool>, i: int, j: int)
    requires
        0 <= i <= j < obs.len(),
        forall|k: int| i < k <= j ==> #[trigger] trace_events(initial, obs)[k] == Transition::Unchanged,
    ensures
        obs[j] == obs[i],
    decreases j - i,
{
    lemma_transitions_follow_edges(initial, obs);
    if j > i {
        lemma_quiet_rounds_keep_observation(initial, obs, i, j - 1);
        assert(trace_events(initial, obs)[j] == Transition::Unchanged);
    }
}

/// Starts and stops of a process alternate: the next reported change after
/// a start is a stop, and the next after a stop is a start.
pub proof fn lemma_starts_and_stops_alternate(initial: bool, obs: Seq<bool>, i: int, j: int)
    requires
        0 <= i < j < obs.len(),
        trace_events(initial, obs)[i] != Transition::Unchanged,
        trace_events(initial, obs)[j] != Transition::Unchanged,
        forall|k: int| i < k < j ==> #[trigger] trace_events(initial, obs)[k] == Transition::Unchanged,
    ensures
        trace_events(initial, obs)[i] != trace_events(initial, obs)[j],
{
    lemma_transitions_follow_edges(initial, obs);
    lemma_quiet_rounds_keep_observation(initial, obs, i, j - 1);
    assert(trace_events(initial, obs)[i] == transition_of(observed_before(initial, obs, i), obs[i]));
    assert(trace_events(initial, obs)[j] == transition_of(observed_before(initial, obs, j), obs[j]));
}

/// From the initial undetected state, the first change reported for a
/// process is a start.
pub proof fn lemma_first_change_is_start(obs: Seq<bool>, j: int)
    requires
        0 <= j < obs.len(),
        trace_events(false, obs)[j] != Transition::Unchanged,
        forall|k: int| 0 <= k < j ==> #[trigger] trace_events(false, obs)[k] == Transition::Unchanged,
    ensures
        trace_events(false, obs)[j] == Transition::Started,
    decreases j,
{
    lemma_transitions_follow_edges(false, obs);
    if j > 0 {
        assert(trace_events(false, obs)[0] == Transition::Unchanged);
        assert(!obs[0]);
        lemma_quiet_rounds_keep_observation(false, obs, 0, j - 1);
        assert(trace_events(false, obs)[j] == transition_of(obs[j - 1], obs[j]));
    }
}

/// Over the whole life of a monitor state, the transitions reported for each
/// watched process are its edges: in round `r` it is reported started exactly
/// when it runs and did not run in round `r - 1` (or `r` is the first round),
/// and stopped exactly when it does not run and ran in round `r - 1`; its
/// flag is its last observation.
pub proof fn lemma_monitor_reports_edges(s: MonitorState)
    requires
        s.wf(),
    ensures
        forall|i: int, r: int|
            0 <= i < s@.len() && 0 <= r < s.history()[i].len() ==> #[trigger] trace_events(
                false,
                s.history()[i],
            )[r] == transition_of(observed_before(false, s.history()[i], r), s.history()[i][r]),
        forall|i: int| 0 <= i < s@.len() ==> #[trigger] s@[i] == detected_after(false, s.history()[i]),
{
    assert forall|i: int, r: int|
        0 <= i < s@.len() && 0 <= r < s.history()[i].len() implies #[trigger] trace_events(
            false,
            s.history()[i],
        )[r] == transition_of(observed_before(false, s.history()[i], r), s.history()[i][r]) by {
        lemma_transitions_follow_edges(false, s.history()[i]);
    }
}

} // verus!

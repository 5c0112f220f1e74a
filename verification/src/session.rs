//! Applying updates to the displays they match, one outside call at a time.
//!
//! The caller creates a session for the matched updates, then alternates: it asks the session
//! for the next action, performs it (a logical or a physical update of one display), and
//! reports the outcome. When the session is finished it yields one result per update.
use vstd::prelude::*;

use crate::display::{Display, DisplayUpdate};
use crate::manager::{
    applied_once, id_views, new_update_result, step_action, step_record, update_targets,
    ApplyAction, ApplyEvent, DisplayManager, DisplayUpdateResult, FailedDisplayUpdate, StepRecord,
};
use crate::types::{
    DisplayIdentifier, DisplayIdentifierInner, LogicalDisplayUpdate, PhysicalDisplayUpdate,
};

verus! {

/// What the caller must do next.
#[derive(Debug, PartialEq, Eq)]
pub enum SessionAction {
    /// Apply this logical update, then report `LogicalApplied`.
    ApplyLogical(LogicalDisplayUpdate),
    /// Apply this physical update, then report `PhysicalApplied`.
    ApplyPhysical(PhysicalDisplayUpdate),
    /// Every update has its result.
    Finished,
}

/// The displays matched by each update, as plain sequences.
pub open spec fn target_views(t: Seq<(DisplayUpdate, Vec<DisplayIdentifierInner>)>) -> Seq<
    (DisplayUpdate, Seq<DisplayIdentifierInner>),
> {
    t.map_values(|x: (DisplayUpdate, Vec<DisplayIdentifierInner>)| (x.0, x.1@))
}

/// A record that settles a display: applied, or failed with a message.
pub open spec fn is_settled(r: StepRecord) -> bool {
    !(r is Nothing)
}

/// The identifiers a result lists as applied, given the records of the first displays of
/// `ids`, in order: each display recorded as applied is listed once.
pub open spec fn applied_from(ids: Seq<DisplayIdentifierInner>, recs: Seq<StepRecord>) -> Seq<
    DisplayIdentifier,
>
    decreases recs.len(),
{
    if recs.len() == 0 {
        seq![]
    } else {
        let prev = applied_from(ids, recs.drop_last());
        if recs.last() is Applied {
            applied_once(prev, ids[recs.len() - 1].outer)
        } else {
            prev
        }
    }
}

/// The failures a result lists, given the records of the first displays of `ids`, in order:
/// each display recorded as failed, with its message.
pub open spec fn failed_from(ids: Seq<DisplayIdentifierInner>, recs: Seq<StepRecord>) -> Seq<
    (DisplayIdentifier, Seq<char>),
>
    decreases recs.len(),
{
    if recs.len() == 0 {
        seq![]
    } else {
        let prev = failed_from(ids, recs.drop_last());
        match recs.last() {
            StepRecord::Failed(m) => prev.push((ids[recs.len() - 1].outer, m)),
            _ => prev,
        }
    }
}

/// The failures of a result as identifier and message text.
pub open spec fn failure_pairs(f: Seq<FailedDisplayUpdate>) -> Seq<(DisplayIdentifier, Seq<char>)> {
    f.map_values(|x: FailedDisplayUpdate| (x.matched_id, x.message@))
}

/// `r` lists exactly what the records of the first displays of `ids` say.
pub open spec fn result_records(
    r: DisplayUpdateResult,
    ids: Seq<DisplayIdentifierInner>,
    recs: Seq<StepRecord>,
) -> bool {
    &&& r.applied@ == applied_from(ids, recs)
    &&& failure_pairs(r.failed@) == failed_from(ids, recs)
}

/// The records of the first displays of an update each settle their display, and a display of
/// an update that needs no outside call is recorded as applied.
pub open spec fn records_wf(
    u: DisplayUpdate,
    ids: Seq<DisplayIdentifierInner>,
    recs: Seq<StepRecord>,
    validate: bool,
) -> bool {
    &&& recs.len() <= ids.len()
    &&& forall|j: int|
        0 <= j < recs.len() ==> is_settled(#[trigger] recs[j]) && (!needs_call(u, validate)
            ==> recs[j] is Applied)
}

/// The record of display `(q, j)`, among the records of the finished updates and of the
/// update in progress at `position`.
pub open spec fn record_of(
    done: Seq<Seq<StepRecord>>,
    current: Seq<StepRecord>,
    position: int,
    q: int,
    j: int,
) -> StepRecord {
    if q < position {
        done[q][j]
    } else {
        current[j]
    }
}

/// The state of a session is consistent: the first `position` updates have their results,
/// each listing exactly what the records of its displays say, and the result of the update in
/// progress lists what the records of its first `matched` displays say.
pub open spec fn session_parts_wf(
    targets: Seq<(DisplayUpdate, Seq<DisplayIdentifierInner>)>,
    validate: bool,
    position: int,
    matched: int,
    awaiting: bool,
    current: DisplayUpdateResult,
    results: Seq<DisplayUpdateResult>,
    done: Seq<Seq<StepRecord>>,
    current_recs: Seq<StepRecord>,
) -> bool {
    &&& 0 <= position <= targets.len()
    &&& results.len() == position
    &&& done.len() == position
    &&& forall|k: int|
        0 <= k < position ==> {
            &&& (#[trigger] results[k]).requested_update == targets[k].0
            &&& done[k].len() == targets[k].1.len()
            &&& records_wf(targets[k].0, targets[k].1, done[k], validate)
            &&& result_records(results[k], targets[k].1, done[k])
        }
    &&& position < targets.len() ==> {
        &&& current.requested_update == targets[position].0
        &&& 0 <= matched <= targets[position].1.len()
        &&& current_recs.len() == matched
        &&& records_wf(targets[position].0, targets[position].1, current_recs, validate)
        &&& result_records(current, targets[position].1, current_recs)
    }
    &&& awaiting ==> {
        &&& position < targets.len()
        &&& matched < targets[position].1.len()
        &&& needs_call(targets[position].0, validate)
    }
}

/// The update needs an outside call for each display it matched: it asks for a logical change,
/// or for a physical one outside validation.
pub open spec fn needs_call(u: DisplayUpdate, validate: bool) -> bool {
    u.logical is Some || (!validate && u.physical is Some)
}

/// Positions of displays are ordered by update, then by matched display.
pub open spec fn before(a: (int, int), b: (int, int)) -> bool {
    a.0 < b.0 || (a.0 == b.0 && a.1 < b.1)
}

/// Every display strictly between positions `lo` and `hi` belongs to an update that needs no
/// outside call.
pub open spec fn no_call_between(
    targets: Seq<(DisplayUpdate, Seq<DisplayIdentifierInner>)>,
    validate: bool,
    lo: (int, int),
    hi: (int, int),
) -> bool {
    forall|q: int, j: int|
        #![trigger before(lo, (q, j)), before((q, j), hi)]
        0 <= q < targets.len() && 0 <= j < targets[q].1.len() && before(lo, (q, j)) && before(
            (q, j),
            hi,
        ) ==> !needs_call(targets[q].0, validate)
}

/// The position from which a step looks for work: the display in progress is included when the
/// step starts it, and excluded when the step reports the outcome of its outstanding call.
pub open spec fn search_from(progress: (int, int), awaiting: bool) -> (int, int) {
    if awaiting {
        progress
    } else {
        (progress.0, progress.1 - 1)
    }
}

/// The event a step reports for display `at`: the reported event for the display whose call is
/// outstanding, `Start` for any other.
pub open spec fn event_for(
    at: (int, int),
    start: (int, int),
    awaiting: bool,
    event: ApplyEvent,
) -> ApplyEvent {
    if at == start && awaiting {
        event
    } else {
        ApplyEvent::Start
    }
}

/// The identifiers recorded as applied when every display of `ids`, in order, is applied.
pub open spec fn all_applied(ids: Seq<DisplayIdentifierInner>) -> Seq<DisplayIdentifier>
    decreases ids.len(),
{
    if ids.len() == 0 {
        seq![]
    } else {
        applied_once(all_applied(ids.drop_last()), ids.last().outer)
    }
}

/// The session's counterpart of an action on one matched display; a display that is done asks
/// for nothing.
pub open spec fn as_session_action(a: ApplyAction) -> SessionAction {
    match a {
        ApplyAction::ApplyLogical(u) => SessionAction::ApplyLogical(u),
        ApplyAction::ApplyPhysical(u) => SessionAction::ApplyPhysical(u),
        ApplyAction::Done => SessionAction::Finished,
    }
}

/// What the work on display `at` of `targets` asks for next after `event`.
pub open spec fn action_at(
    targets: Seq<(DisplayUpdate, Seq<DisplayIdentifierInner>)>,
    at: (int, int),
    validate: bool,
    event: ApplyEvent,
) -> ApplyAction {
    step_action(targets[at.0].0, targets[at.0].1[at.1], validate, event)
}

/// Applying a list of matched updates.
pub struct ApplySession {
    targets: Vec<(DisplayUpdate, Vec<DisplayIdentifierInner>)>,
    validate: bool,
    position: usize,
    matched: usize,
    awaiting: bool,
    current: DisplayUpdateResult,
    results: Vec<DisplayUpdateResult>,
    done_records: Ghost<Seq<Seq<StepRecord>>>,
    current_records: Ghost<Seq<StepRecord>>,
}

impl ApplySession {
    #[verifier::type_invariant]
    spec fn wf(self) -> bool {
        session_parts_wf(
            target_views(self.targets@),
            self.validate,
            self.position as int,
            self.matched as int,
            self.awaiting,
            self.current,
            self.results@,
            self.done_records@,
            self.current_records@,
        )
    }

    /// The updates, each with the displays it matched.
    pub closed spec fn planned(self) -> Seq<(DisplayUpdate, Seq<DisplayIdentifierInner>)> {
        target_views(self.targets@)
    }

    /// Whether the session only validates.
    pub closed spec fn is_validation(self) -> bool {
        self.validate
    }

    /// How far the session is: the update in progress, and the matched display in progress.
    pub closed spec fn progress(self) -> (int, int) {
        (self.position as int, self.matched as int)
    }

    /// Whether the session waits for the outcome of the call it asked for last.
    pub closed spec fn is_awaiting(self) -> bool {
        self.awaiting
    }

    /// The results of the updates done so far.
    pub closed spec fn done_results(self) -> Seq<DisplayUpdateResult> {
        self.results@
    }

    /// The record of display `j` of update `q`, for a display before the one in progress.
    pub closed spec fn record_at(self, q: int, j: int) -> StepRecord {
        record_of(self.done_records@, self.current_records@, self.position as int, q, j)
    }

    /// The records of the displays of the `q`-th update, for an update done.
    pub closed spec fn update_records(self, q: int) -> Seq<StepRecord> {
        self.done_records@[q]
    }

    /// Every update has its result.
    pub open spec fn finished(self) -> bool {
        self.progress().0 == self.planned().len()
    }

    /// Starts applying `targets`: each update with the identifiers of the displays it matched.
    pub fn new(targets: Vec<(DisplayUpdate, Vec<DisplayIdentifierInner>)>, validate: bool) -> (r:
        ApplySession)
        ensures
            r.planned() == target_views(targets@),
            r.is_validation() == validate,
            r.progress() == (0int, 0int),
            !r.is_awaiting(),
            r.done_results().len() == 0,
    {
        let current = if targets.len() > 0 {
            new_update_result(&targets[0].0)
        } else {
            new_update_result(
                &DisplayUpdate {
                    id: DisplayIdentifier { name: None, serial_number: None },
                    logical: None,
                    physical: None,
                },
            )
        };
        proof {
            assert(failure_pairs(current.failed@) =~= Seq::<(DisplayIdentifier, Seq<char>)>::empty());
            assert(current.applied@ =~= Seq::<DisplayIdentifier>::empty());
        }
        ApplySession {
            targets,
            validate,
            position: 0,
            matched: 0,
            awaiting: false,
            current,
            results: Vec::new(),
            done_records: Ghost(Seq::empty()),
            current_records: Ghost(Seq::empty()),
        }
    }

    /// Whether every update has its result.
    pub fn is_finished(&self) -> (r: bool)
        ensures
            r == self.finished(),
    {
        proof {
            use_type_invariant(self);
        }
        self.position == self.targets.len()
    }

    /// Reports `event`, the outcome of the call asked for last, and moves on to the next
    /// outside call.
    ///
    /// When no call is outstanding (the first step), the event is not used: the display in
    /// progress is started. When a call is outstanding, the display in progress answers the
    /// event as `step_action` does: it asks for its next call (the physical update after an
    /// applied logical one), or it is settled and the session moves on to the next display
    /// that needs a call, or finishes. Each display is settled by one record, the one
    /// `step_record` gives for the event reported for it; displays whose update needs no
    /// outside call are recorded as applied on the way. A validating session never asks for a
    /// physical update.
    pub fn step(self, event: ApplyEvent) -> (r: (ApplySession, SessionAction))
        ensures
            r.0.planned() == self.planned(),
            r.0.is_validation() == self.is_validation(),
            r.0.progress().0 > self.progress().0 || (r.0.progress().0 == self.progress().0
                && r.0.progress().1 >= self.progress().1),
            r.0.done_results().take(self.done_results().len() as int) == self.done_results(),
            (r.1 is Finished) == r.0.finished(),
            r.0.is_awaiting() == !(r.1 is Finished),
            no_call_between(
                self.planned(),
                self.is_validation(),
                search_from(self.progress(), self.is_awaiting()),
                if r.1 is Finished {
                    (self.planned().len() as int, 0int)
                } else {
                    r.0.progress()
                },
            ),
            forall|q: int, j: int|
                #![trigger r.0.record_at(q, j)]
                0 <= q < self.planned().len() && 0 <= j < self.planned()[q].1.len() && before(
                    (q, j),
                    self.progress(),
                ) ==> r.0.record_at(q, j) == self.record_at(q, j),
            forall|q: int, j: int|
                #![trigger r.0.record_at(q, j)]
                0 <= q < self.planned().len() && 0 <= j < self.planned()[q].1.len() && !before(
                    (q, j),
                    self.progress(),
                ) && before((q, j), r.0.progress()) ==> r.0.record_at(q, j) == step_record(
                    self.planned()[q].0,
                    self.planned()[q].1[j],
                    self.is_validation(),
                    event_for((q, j), self.progress(), self.is_awaiting(), event),
                ),
            !(r.1 is Finished) ==> r.1 == as_session_action(
                action_at(
                    self.planned(),
                    r.0.progress(),
                    self.is_validation(),
                    event_for(r.0.progress(), self.progress(), self.is_awaiting(), event),
                ),
            ),
            self.is_awaiting() ==> ((action_at(
                self.planned(),
                self.progress(),
                self.is_validation(),
                event,
            ) is Done) <==> (r.1 is Finished || before(self.progress(), r.0.progress()))),
            r.1 matches SessionAction::ApplyLogical(u) ==> {
                let p = r.0.progress();
                &&& p.0 < self.planned().len()
                &&& 0 <= p.1 < self.planned()[p.0].1.len()
                &&& u.id == self.planned()[p.0].1[p.1]
                &&& self.planned()[p.0].0.logical == Some(u.content)
            },
            r.1 matches SessionAction::ApplyPhysical(u) ==> {
                let p = r.0.progress();
                &&& !self.is_validation()
                &&& p.0 < self.planned().len()
                &&& 0 <= p.1 < self.planned()[p.0].1.len()
                &&& u.id == self.planned()[p.0].1[p.1]
                &&& self.planned()[p.0].0.physical == Some(u.content)
            },
    {
        proof {
            use_type_invariant(&self);
        }
        let ghost self_targets = self.planned();
        let ghost self_validate = self.is_validation();
        let ghost self_awaiting = self.is_awaiting();
        let ghost self_progress = self.progress();
        let ghost self_results = self.done_results();
        let ApplySession {
            targets,
            validate,
            position,
            matched,
            awaiting,
            current,
            results,
            done_records,
            current_records,
        } = self;
        let ghost tv = target_views(targets@);
        let ghost start = (position as int, matched as int);
        let ghost lo = search_from(start, awaiting);
        let ghost start_done = done_records@;
        let ghost start_cur = current_records@;
        let ghost mut done = done_records@;
        let ghost mut cur = current_records@;
        let mut position = position;
        let mut matched = matched;
        let mut current = current;
        let mut results = results;
        let mut pending = if awaiting {
            event
        } else {
            ApplyEvent::Start
        };
        let n = targets.len();
        loop
            invariant
                n == targets@.len(),
                tv == target_views(targets@),
                tv == self_targets,
                validate == self_validate,
                awaiting == self_awaiting,
                self_targets == self.planned(),
                self_validate == self.is_validation(),
                self_awaiting == self.is_awaiting(),
                start == self.progress(),
                start == self_progress,
                self_results == self.done_results(),
                start_done.len() == start.0,
                forall|q: int, j: int|
                    #![trigger self.record_at(q, j)]
                    0 <= q < tv.len() && 0 <= j < tv[q].1.len() ==> self.record_at(q, j)
                        == record_of(start_done, start_cur, start.0, q, j),
                lo == search_from(start, awaiting),
                no_call_between(tv, validate, lo, (position as int, matched as int)),
                pending == event_for(
                    (position as int, matched as int),
                    start,
                    awaiting,
                    event,
                ),
                awaiting ==> start.0 < n && start.1 < tv[start.0].1.len() && needs_call(
                    tv[start.0].0,
                    validate,
                ),
                session_parts_wf(
                    tv,
                    validate,
                    position as int,
                    matched as int,
                    false,
                    current,
                    results@,
                    done,
                    cur,
                ),
                !before((position as int, matched as int), start),
                awaiting && before(start, (position as int, matched as int)) ==> action_at(
                    tv,
                    start,
                    validate,
                    event,
                ) is Done,
                results@.take(start.0) == self_results,
                self_results.len() == start.0,
                forall|q: int, j: int|
                    #![trigger record_of(done, cur, position as int, q, j)]
                    0 <= q < tv.len() && 0 <= j < tv[q].1.len() && before((q, j), start) ==> record_of(
                        done,
                        cur,
                        position as int,
                        q,
                        j,
                    ) == record_of(start_done, start_cur, start.0, q, j),
                forall|q: int, j: int|
                    #![trigger record_of(done, cur, position as int, q, j)]
                    0 <= q < tv.len() && 0 <= j < tv[q].1.len() && !before((q, j), start) && before(
                        (q, j),
                        (position as int, matched as int),
                    ) ==> record_of(done, cur, position as int, q, j) == step_record(
                        tv[q].0,
                        tv[q].1[j],
                        validate,
                        event_for((q, j), start, awaiting, event),
                    ),
            decreases n - position, if position < n {
                targets@[position as int].1@.len() - matched
            } else {
                0
            },
        {
            if position >= n {
                assert forall|q: int, j: int|
                    0 <= q < tv.len() && 0 <= j < tv[q].1.len() && before(lo, (q, j)) && before(
                        (q, j),
                        (n as int, 0int),
                    ) implies !needs_call(tv[q].0, validate) by {
                    assert(before((q, j), (position as int, matched as int)));
                }
                let s = ApplySession {
                    targets,
                    validate,
                    position,
                    matched,
                    awaiting: false,
                    current,
                    results,
                    done_records: Ghost(done),
                    current_records: Ghost(cur),
                };
                proof {
                    assert forall|q: int, j: int|
                        0 <= q < tv.len() && 0 <= j < tv[q].1.len() implies #[trigger] s.record_at(
                            q,
                            j,
                        ) == record_of(done, cur, position as int, q, j) by {}
                }
                return (s, SessionAction::Finished);
            }
            let ghost ids = tv[position as int].1;
            let ghost u = tv[position as int].0;
            assert(ids == targets@[position as int].1@);
            let m = targets[position].1.len();
            if matched >= m {
                assert forall|q: int, j: int|
                    0 <= q < tv.len() && 0 <= j < tv[q].1.len() && before(lo, (q, j)) && before(
                        (q, j),
                        (position + 1, 0int),
                    ) implies !needs_call(tv[q].0, validate) by {
                    assert(before((q, j), (position as int, matched as int)));
                }
                let ghost old_results = results@;
                let ghost old_done = done;
                let ghost old_cur = cur;
                let ghost old_position = position as int;
                results.push(current);
                proof {
                    done = done.push(cur);
                    cur = Seq::empty();
                    assert(results@.take(start.0) == old_results.take(start.0));
                }
                position = position + 1;
                matched = 0;
                current = if position < n {
                    new_update_result(&targets[position].0)
                } else {
                    new_update_result(
                        &DisplayUpdate {
                            id: DisplayIdentifier { name: None, serial_number: None },
                            logical: None,
                            physical: None,
                        },
                    )
                };
                proof {
                    assert(failure_pairs(current.failed@) =~= Seq::<(DisplayIdentifier, Seq<char>)>::empty());
                    assert(current.applied@ =~= Seq::<DisplayIdentifier>::empty());
                    assert forall|k: int| 0 <= k < position implies {
                        &&& (#[trigger] results@[k]).requested_update == tv[k].0
                        &&& done[k].len() == tv[k].1.len()
                        &&& records_wf(tv[k].0, tv[k].1, done[k], validate)
                        &&& result_records(results@[k], tv[k].1, done[k])
                    } by {
                        if k < old_position {
                            assert(results@[k] == old_results[k]);
                            assert(done[k] == old_done[k]);
                        }
                    }
                    assert forall|q: int, j: int|
                        0 <= q < tv.len() && 0 <= j < tv[q].1.len() && (q < position) implies
                        #[trigger] record_of(done, cur, position as int, q, j) == record_of(
                        old_done,
                        old_cur,
                        old_position,
                        q,
                        j,
                    ) by {}
                    assert forall|q: int, j: int|
                        0 <= q < tv.len() && 0 <= j < tv[q].1.len() && !before((q, j), start)
                            && before((q, j), (position as int, matched as int)) implies #[trigger] record_of(
                        done,
                        cur,
                        position as int,
                        q,
                        j,
                    ) == step_record(
                        tv[q].0,
                        tv[q].1[j],
                        validate,
                        event_for((q, j), start, awaiting, event),
                    ) by {
                        assert(before((q, j), (old_position, old_cur.len() as int)));
                    }
                    assert forall|q: int, j: int|
                        0 <= q < tv.len() && 0 <= j < tv[q].1.len() && before((q, j), start) implies
                        #[trigger] record_of(done, cur, position as int, q, j) == record_of(
                        start_done,
                        start_cur,
                        start.0,
                        q,
                        j,
                    ) by {
                        assert(before((q, j), (old_position, old_cur.len() as int)));
                    }
                }
                pending = ApplyEvent::Start;
            } else {
                let ghost old_current = current;
                let ghost ev = pending;
                let matched_id = &targets[position].1[matched];
                let action = DisplayManager::apply_step(&mut current, matched_id, validate, pending);
                proof {
                    lemma_step_records(old_current, current, ids, cur, *matched_id, validate, ev);
                    if !(ev is Start) {
                        assert(awaiting && (position as int, matched as int) == start);
                    }
                }
                match action {
                    ApplyAction::Done => {
                        let ghost rec = step_record(u, *matched_id, validate, ev);
                        let ghost old_cur = cur;
                        proof {
                            cur = cur.push(rec);
                            if ev is Start {
                                assert(!needs_call(u, validate));
                            }
                            assert forall|j: int| 0 <= j < cur.len() implies is_settled(#[trigger] cur[j])
                                && (!needs_call(u, validate) ==> cur[j] is Applied) by {
                                if j < old_cur.len() {
                                    assert(cur[j] == old_cur[j]);
                                }
                            }
                            assert forall|q: int, j: int|
                                0 <= q < tv.len() && 0 <= j < tv[q].1.len() && before(lo, (q, j))
                                    && before((q, j), (position as int, matched + 1)) implies !needs_call(
                                tv[q].0,
                                validate,
                            ) by {
                                if !before((q, j), (position as int, matched as int)) {
                                    assert(q == position && j == matched);
                                }
                            }
                            assert forall|q: int, j: int|
                                0 <= q < tv.len() && 0 <= j < tv[q].1.len() && before((q, j), start)
                                    implies #[trigger] record_of(done, cur, position as int, q, j)
                                == record_of(start_done, start_cur, start.0, q, j) by {
                                assert(record_of(done, cur, position as int, q, j) == record_of(
                                    done,
                                    old_cur,
                                    position as int,
                                    q,
                                    j,
                                ));
                            }
                            assert forall|q: int, j: int|
                                0 <= q < tv.len() && 0 <= j < tv[q].1.len() && !before((q, j), start)
                                    && before((q, j), (position as int, matched + 1)) implies #[trigger] record_of(
                                done,
                                cur,
                                position as int,
                                q,
                                j,
                            ) == step_record(
                                tv[q].0,
                                tv[q].1[j],
                                validate,
                                event_for((q, j), start, awaiting, event),
                            ) by {
                                if q == position && j == matched {
                                    assert(record_of(done, cur, position as int, q, j) == rec);
                                } else {
                                    assert(before((q, j), (position as int, matched as int)));
                                    assert(record_of(done, cur, position as int, q, j) == record_of(
                                        done,
                                        old_cur,
                                        position as int,
                                        q,
                                        j,
                                    ));
                                }
                            }
                        }
                        matched = matched + 1;
                        pending = ApplyEvent::Start;
                    },
                    ApplyAction::ApplyLogical(upd) => {
                        let s = ApplySession {
                            targets,
                            validate,
                            position,
                            matched,
                            awaiting: true,
                            current,
                            results,
                            done_records: Ghost(done),
                            current_records: Ghost(cur),
                        };
                        proof {
                            assert forall|q: int, j: int|
                                0 <= q < tv.len() && 0 <= j < tv[q].1.len() implies #[trigger] s.record_at(
                                    q,
                                    j,
                                ) == record_of(done, cur, position as int, q, j) by {}
                        }
                        return (s, SessionAction::ApplyLogical(upd));
                    },
                    ApplyAction::ApplyPhysical(upd) => {
                        let s = ApplySession {
                            targets,
                            validate,
                            position,
                            matched,
                            awaiting: true,
                            current,
                            results,
                            done_records: Ghost(done),
                            current_records: Ghost(cur),
                        };
                        proof {
                            assert forall|q: int, j: int|
                                0 <= q < tv.len() && 0 <= j < tv[q].1.len() implies #[trigger] s.record_at(
                                    q,
                                    j,
                                ) == record_of(done, cur, position as int, q, j) by {}
                        }
                        return (s, SessionAction::ApplyPhysical(upd));
                    },
                }
            }
        }
    }

    /// The results of the updates done so far, one per update in order; when the session is
    /// finished, one for every update. Each result lists exactly what the records of its
    /// displays say, every matched display is settled, and an update that needs no outside
    /// call is applied on every display it matched.
    pub fn into_results(self) -> (r: Vec<DisplayUpdateResult>)
        ensures
            r@ == self.done_results(),
            r@.len() == self.progress().0,
            self.finished() ==> r@.len() == self.planned().len(),
            forall|k: int|
                0 <= k < r@.len() ==> {
                    &&& (#[trigger] r@[k]).requested_update == self.planned()[k].0
                    &&& self.update_records(k).len() == self.planned()[k].1.len()
                    &&& forall|j: int|
                        0 <= j < self.update_records(k).len() ==> #[trigger] self.update_records(
                            k,
                        )[j] == self.record_at(k, j) && is_settled(self.record_at(k, j))
                    &&& result_records(r@[k], self.planned()[k].1, self.update_records(k))
                    &&& forall|j: int|
                        0 <= j < self.planned()[k].1.len() ==> id_views(r@[k].applied@).contains(
                            (#[trigger] self.planned()[k].1[j]).outer@,
                        ) || exists|f: int|
                            0 <= f < r@[k].failed@.len() && r@[k].failed@[f].matched_id
                                == self.planned()[k].1[j].outer
                    &&& !needs_call(self.planned()[k].0, self.is_validation()) ==> r@[k].applied@
                        == all_applied(self.planned()[k].1) && r@[k].failed@.len() == 0
                },
    {
        proof {
            use_type_invariant(&self);
            let tv = target_views(self.targets@);
            assert forall|k: int, j: int|
                0 <= k < self.results@.len() && 0 <= j < tv[k].1.len() implies id_views(
                    self.results@[k].applied@,
                ).contains((#[trigger] tv[k].1[j]).outer@) || exists|f: int|
                    0 <= f < self.results@[k].failed@.len() && self.results@[k].failed@[f].matched_id
                        == tv[k].1[j].outer by {
                law_every_display_listed(tv[k].1, self.done_records@[k]);
                let fp = failed_from(tv[k].1, self.done_records@[k]);
                if !id_views(self.results@[k].applied@).contains(tv[k].1[j].outer@) {
                    let f = choose|f: int| 0 <= f < fp.len() && fp[f].0 == tv[k].1[j].outer;
                    assert(failure_pairs(self.results@[k].failed@)[f].0
                        == self.results@[k].failed@[f].matched_id);
                }
            }
            assert forall|k: int| 0 <= k < self.results@.len() && !needs_call(tv[k].0, self.validate)
                implies #[trigger] self.results@[k].applied@ == all_applied(tv[k].1)
                && self.results@[k].failed@.len() == 0 by {
                lemma_all_applied_records(tv[k].1, self.done_records@[k]);
                if self.results@[k].failed@.len() > 0 {
                    assert(failure_pairs(self.results@[k].failed@).len() > 0);
                }
            }
        }
        let ApplySession { results, .. } = self;
        results
    }
}

/// When every display of `ids` is recorded as applied, the result lists all of them as applied
/// and nothing as failed.
proof fn lemma_all_applied_records(ids: Seq<DisplayIdentifierInner>, recs: Seq<StepRecord>)
    requires
        recs.len() == ids.len(),
        forall|j: int| 0 <= j < recs.len() ==> (#[trigger] recs[j]) is Applied,
    ensures
        applied_from(ids, recs) == all_applied(ids),
        failed_from(ids, recs).len() == 0,
    decreases recs.len(),
{
    if recs.len() > 0 {
        let r2 = recs.drop_last();
        let i2 = ids.drop_last();
        assert forall|j: int| 0 <= j < r2.len() implies (#[trigger] r2[j]) is Applied by {
            assert(r2[j] == recs[j]);
        }
        lemma_all_applied_records(i2, r2);
        lemma_applied_from_prefix(ids, r2);
        lemma_failed_from_prefix(ids, r2);
        assert(recs.last() == recs[recs.len() - 1]);
    }
}

/// The records of the first displays only look at those displays.
proof fn lemma_applied_from_prefix(ids: Seq<DisplayIdentifierInner>, recs: Seq<StepRecord>)
    requires
        recs.len() < ids.len(),
    ensures
        applied_from(ids, recs) == applied_from(ids.drop_last(), recs),
    decreases recs.len(),
{
    if recs.len() > 0 {
        lemma_applied_from_prefix(ids, recs.drop_last());
    }
}

proof fn lemma_failed_from_prefix(ids: Seq<DisplayIdentifierInner>, recs: Seq<StepRecord>)
    requires
        recs.len() < ids.len(),
    ensures
        failed_from(ids, recs) == failed_from(ids.drop_last(), recs),
    decreases recs.len(),
{
    if recs.len() > 0 {
        lemma_failed_from_prefix(ids, recs.drop_last());
    }
}

/// One step of work on the next display of `ids`: when it settles the display, the result
/// lists what its records say with the new record appended; otherwise nothing changes.
proof fn lemma_step_records(
    before: DisplayUpdateResult,
    after: DisplayUpdateResult,
    ids: Seq<DisplayIdentifierInner>,
    recs: Seq<StepRecord>,
    matched_id: DisplayIdentifierInner,
    validate: bool,
    event: ApplyEvent,
)
    requires
        recs.len() < ids.len(),
        ids[recs.len() as int] == matched_id,
        result_records(before, ids, recs),
        match step_record(before.requested_update, matched_id, validate, event) {
            StepRecord::Nothing => after.applied@ == before.applied@ && after.failed@
                == before.failed@,
            StepRecord::Applied => after.applied@ == applied_once(before.applied@, matched_id.outer)
                && after.failed@ == before.failed@,
            StepRecord::Failed(message) => after.applied@ == before.applied@ && after.failed@.len()
                == before.failed@.len() + 1 && after.failed@.drop_last() == before.failed@
                && after.failed@.last().matched_id == matched_id.outer
                && after.failed@.last().message@ == message,
        },
    ensures
        step_action(before.requested_update, matched_id, validate, event) is Done ==> {
            &&& is_settled(step_record(before.requested_update, matched_id, validate, event))
            &&& result_records(
                after,
                ids,
                recs.push(step_record(before.requested_update, matched_id, validate, event)),
            )
        },
        !(step_action(before.requested_update, matched_id, validate, event) is Done) ==> result_records(
            after,
            ids,
            recs,
        ),
{
    let rec = step_record(before.requested_update, matched_id, validate, event);
    let more = recs.push(rec);
    assert(more.drop_last() == recs);
    assert(more.last() == rec);
    match rec {
        StepRecord::Failed(message) => {
            assert(failure_pairs(after.failed@) =~= failure_pairs(before.failed@).push(
                (matched_id.outer, message),
            )) by {
                assert forall|i: int| 0 <= i < before.failed@.len() implies after.failed@[i]
                    == before.failed@[i] by {
                    assert(after.failed@.drop_last()[i] == after.failed@[i]);
                }
            }
        },
        _ => {},
    }
}

/// Every display of an update, once all are settled, is listed: as applied when its record
/// says applied, and with its message among the failures when its record says failed.
pub proof fn law_every_display_listed(ids: Seq<DisplayIdentifierInner>, recs: Seq<StepRecord>)
    requires
        recs.len() == ids.len(),
        forall|j: int| 0 <= j < recs.len() ==> is_settled(#[trigger] recs[j]),
    ensures
        forall|j: int|
            0 <= j < ids.len() ==> (recs[j] is Applied ==> id_views(applied_from(ids, recs)).contains(
                (#[trigger] ids[j]).outer@,
            )) && (recs[j] matches StepRecord::Failed(m) ==> failed_from(ids, recs).contains(
                (ids[j].outer, m),
            )),
        forall|j: int|
            0 <= j < ids.len() ==> id_views(applied_from(ids, recs)).contains(
                (#[trigger] ids[j]).outer@,
            ) || exists|k: int|
                0 <= k < failed_from(ids, recs).len() && failed_from(ids, recs)[k].0 == ids[j].outer,
{
    lemma_records_listed(ids, recs, recs.len() as int);
    assert(recs.take(recs.len() as int) == recs);
    assert forall|j: int| 0 <= j < ids.len() implies id_views(applied_from(ids, recs)).contains(
        (#[trigger] ids[j]).outer@,
    ) || exists|k: int|
        0 <= k < failed_from(ids, recs).len() && failed_from(ids, recs)[k].0 == ids[j].outer by {
        if let StepRecord::Failed(m) = recs[j] {
            let k = choose|k: int|
                0 <= k < failed_from(ids, recs).len() && failed_from(ids, recs)[k] == (ids[j].outer, m);
            assert(failed_from(ids, recs)[k].0 == ids[j].outer);
        }
    }
}

proof fn lemma_applied_once_keeps(applied: Seq<DisplayIdentifier>, id: DisplayIdentifier, v: (Option<Seq<char>>, Option<Seq<char>>))
    requires
        id_views(applied).contains(v),
    ensures
        id_views(applied_once(applied, id)).contains(v),
        id_views(applied_once(applied, id)).contains(id@),
{
    let k = choose|k: int| 0 <= k < id_views(applied).len() && id_views(applied)[k] == v;
    if !id_views(applied).contains(id@) {
        let a2 = applied.push(id);
        assert(id_views(a2)[k] == v);
        assert(id_views(a2)[applied.len() as int] == id@);
    }
}

proof fn lemma_applied_once_adds(applied: Seq<DisplayIdentifier>, id: DisplayIdentifier)
    ensures
        id_views(applied_once(applied, id)).contains(id@),
{
    if !id_views(applied).contains(id@) {
        let a2 = applied.push(id);
        assert(id_views(a2)[applied.len() as int] == id@);
    }
}

proof fn lemma_records_listed(ids: Seq<DisplayIdentifierInner>, recs: Seq<StepRecord>, n: int)
    requires
        0 <= n <= recs.len(),
        recs.len() <= ids.len(),
    ensures
        forall|j: int|
            0 <= j < n ==> (recs[j] is Applied ==> id_views(applied_from(ids, recs.take(n))).contains(
                (#[trigger] ids[j]).outer@,
            )) && (recs[j] matches StepRecord::Failed(m) ==> failed_from(ids, recs.take(n)).contains(
                (ids[j].outer, m),
            )),
    decreases n,
{
    if n > 0 {
        lemma_records_listed(ids, recs, n - 1);
        let t = recs.take(n);
        assert(t.drop_last() == recs.take(n - 1));
        assert(t.last() == recs[n - 1]);
        let prev_a = applied_from(ids, recs.take(n - 1));
        let prev_f = failed_from(ids, recs.take(n - 1));
        assert forall|j: int| 0 <= j < n implies (recs[j] is Applied ==> id_views(
            applied_from(ids, t),
        ).contains((#[trigger] ids[j]).outer@)) && (recs[j] matches StepRecord::Failed(m)
            ==> failed_from(ids, t).contains((ids[j].outer, m))) by {
            if t.last() is Applied {
                assert(applied_from(ids, t) == applied_once(prev_a, ids[n - 1].outer));
                assert(failed_from(ids, t) == prev_f);
                if j < n - 1 && recs[j] is Applied {
                    lemma_applied_once_keeps(prev_a, ids[n - 1].outer, ids[j].outer@);
                }
                if j == n - 1 {
                    lemma_applied_once_adds(prev_a, ids[n - 1].outer);
                }
            } else if let StepRecord::Failed(mm) = t.last() {
                assert(applied_from(ids, t) == prev_a);
                assert(failed_from(ids, t) == prev_f.push((ids[n - 1].outer, mm)));
                if j < n - 1 {
                    if let StepRecord::Failed(m) = recs[j] {
                        let k = choose|k: int| 0 <= k < prev_f.len() && prev_f[k] == (ids[j].outer, m);
                        assert(failed_from(ids, t)[k] == prev_f[k]);
                    }
                } else {
                    assert(failed_from(ids, t)[prev_f.len() as int] == (ids[n - 1].outer, mm));
                }
            } else {
                assert(applied_from(ids, t) == prev_a);
                assert(failed_from(ids, t) == prev_f);
            }
        }
    }
}

/// A validating session asks for no physical update, whatever event is reported for whichever
/// display: each step's action is the one `action_at` gives.
pub proof fn law_validation_asks_no_physical_update(
    targets: Seq<(DisplayUpdate, Seq<DisplayIdentifierInner>)>,
    at: (int, int),
    event: ApplyEvent,
)
    ensures
        !(as_session_action(action_at(targets, at, true, event)) is ApplyPhysical),
{
}

/// Under validation, an update without logical content needs no outside call, and each display
/// it matched is recorded as applied as soon as it is started.
pub proof fn law_validation_applies_updates_without_logical_content(
    u: DisplayUpdate,
    matched: DisplayIdentifierInner,
)
    requires
        u.logical is None,
    ensures
        !needs_call(u, true),
        step_action(u, matched, true, ApplyEvent::Start) is Done,
        step_record(u, matched, true, ApplyEvent::Start) is Applied,
{
}

impl DisplayManager {
    /// Starts applying `updates` to the queried displays: each update goes to every display
    /// it selects. When `validate` is set, nothing physical is written.
    pub fn apply(displays: &Vec<Display>, updates: Vec<DisplayUpdate>, validate: bool) -> (r:
        ApplySession)
        ensures
            r.planned() == update_targets(displays@, updates@),
            r.is_validation() == validate,
            r.progress() == (0int, 0int),
            !r.is_awaiting(),
            r.done_results().len() == 0,
    {
        let targets = DisplayManager::matched_updates(displays, updates);
        let r = ApplySession::new(targets, validate);
        proof {
            assert(r.planned() =~= update_targets(displays@, updates@));
        }
        r
    }

    /// Starts applying `updates` for real.
    pub fn update(displays: &Vec<Display>, updates: Vec<DisplayUpdate>) -> (r: ApplySession)
        ensures
            r.planned() == update_targets(displays@, updates@),
            !r.is_validation(),
            r.progress() == (0int, 0int),
            !r.is_awaiting(),
            r.done_results().len() == 0,
    {
        DisplayManager::apply(displays, updates, false)
    }

    /// Starts checking `updates` without writing anything physical: the same session as
    /// `apply` with `validate` set.
    pub fn validate(displays: &Vec<Display>, updates: Vec<DisplayUpdate>) -> (r: ApplySession)
        ensures
            r.planned() == update_targets(displays@, updates@),
            r.is_validation(),
            r.progress() == (0int, 0int),
            !r.is_awaiting(),
            r.done_results().len() == 0,
    {
        DisplayManager::apply(displays, updates, true)
    }
}

} // verus!

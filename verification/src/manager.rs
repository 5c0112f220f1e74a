//! The display manager: assembling displays, looking them up, and applying updates.
use vstd::multiset::Multiset;
use vstd::prelude::*;

use crate::display::{display_id, Display, DisplayUpdate};
use crate::logical_windows::LogicalDisplayApplyError;
use crate::logical_windows::LogicalDisplayQueryError;
use crate::matching::{
    chosen_physical, connector_matches, lemma_unique_index_in_range, model_matches, name_matches,
    serial_matches, tier_flags, first_prefix_index, take_matching_physical_display,
    take_physical_display_by_path_prefix,
};
use crate::physical_linux::{apply_error_text, PhysicalDisplayApplyError, PhysicalDisplayQueryError};
use crate::text::{append_chars, chars_of, string_of};
use crate::types::{
    identifier_subset, DisplayIdentifier, DisplayIdentifierInner, LogicalDisplay,
    LogicalDisplayUpdate, PhysicalDisplay, PhysicalDisplayUpdate,
};

verus! {

/// Errors that can occur while querying display state.
#[derive(Debug)]
pub enum DisplayQueryError {
    Physical { source: PhysicalDisplayQueryError },
    Logical { source: LogicalDisplayQueryError },
}

/// Errors that can occur while applying display updates.
#[derive(Debug)]
pub enum DisplayApplyError {
    Query { source: DisplayQueryError },
    Physical { source: PhysicalDisplayApplyError },
    Logical { source: LogicalDisplayApplyError },
}

/// The message of a query error.
pub open spec fn display_query_error_text(e: DisplayQueryError) -> Seq<char> {
    match e {
        DisplayQueryError::Physical { .. } => "physical querying error"@,
        DisplayQueryError::Logical { .. } => "logical querying error"@,
    }
}

/// The message of an apply error.
pub open spec fn display_apply_error_text(e: DisplayApplyError) -> Seq<char> {
    match e {
        DisplayApplyError::Query { .. } => "error while first querying displays"@,
        DisplayApplyError::Physical { source } => "physical applying error: "@ + apply_error_text(
            source,
        ),
        DisplayApplyError::Logical { .. } => "logical applying error"@,
    }
}

impl DisplayQueryError {
    /// The human-readable message of this error.
    pub fn to_string(&self) -> (r: String)
        ensures
            r@ == display_query_error_text(*self),
    {
        match self {
            DisplayQueryError::Physical { .. } => "physical querying error".to_owned(),
            DisplayQueryError::Logical { .. } => "logical querying error".to_owned(),
        }
    }
}

impl DisplayApplyError {
    /// The human-readable message of this error.
    pub fn to_string(&self) -> (r: String)
        ensures
            r@ == display_apply_error_text(*self),
    {
        match self {
            DisplayApplyError::Query { .. } => "error while first querying displays".to_owned(),
            DisplayApplyError::Physical { source } => {
                let mut v = chars_of("physical applying error: ");
                append_chars(&mut v, &chars_of(source.to_string().as_str()));
                string_of(&v)
            },
            DisplayApplyError::Logical { .. } => "logical applying error".to_owned(),
        }
    }
}

/// A concrete display matched by a user-facing identifier.
#[derive(Debug, PartialEq, Eq)]
pub struct DisplayMatch {
    pub requested_id: DisplayIdentifier,
    pub matched_id: DisplayIdentifier,
    pub display: Display,
}

/// A per-display failure encountered while applying an update.
#[derive(Debug, PartialEq, Eq)]
pub struct FailedDisplayUpdate {
    pub matched_id: DisplayIdentifier,
    pub message: String,
}

impl View for FailedDisplayUpdate {
    type V = ((Option<Seq<char>>, Option<Seq<char>>), Seq<char>);

    open spec fn view(&self) -> ((Option<Seq<char>>, Option<Seq<char>>), Seq<char>) {
        (self.matched_id@, self.message@)
    }
}

/// Best-effort result for a single requested display update.
#[derive(Debug, PartialEq, Eq)]
pub struct DisplayUpdateResult {
    pub requested_update: DisplayUpdate,
    pub applied: Vec<DisplayIdentifier>,
    pub failed: Vec<FailedDisplayUpdate>,
}

/// Placeholder error kinds kept for callers of the manager API.
pub struct QueryError {}

pub struct ValidateUpdateError {}

pub struct CreationError {}

/// High-level entry point for querying and updating displays.
pub struct DisplayManager;

/// The identifiers held by a sequence of identifiers.
pub open spec fn id_views(v: Seq<DisplayIdentifier>) -> Seq<(Option<Seq<char>>, Option<Seq<char>>)> {
    v.map_values(|i: DisplayIdentifier| i@)
}

/// `requested_id` selects display `d`.
pub open spec fn selects(requested_id: DisplayIdentifier, d: Display) -> bool {
    identifier_subset(requested_id@, display_id(d).outer@)
}

/// The displays selected by `requested_id`, in order.
pub open spec fn selected(ds: Seq<Display>, requested_id: DisplayIdentifier) -> Seq<Display> {
    ds.filter(|d: Display| selects(requested_id, d))
}

/// The matches reported for one requested identifier.
pub open spec fn matches_for(ds: Seq<Display>, requested_id: DisplayIdentifier) -> Seq<
    DisplayMatch,
> {
    selected(ds, requested_id).map_values(
        |d: Display|
            DisplayMatch { requested_id: requested_id, matched_id: display_id(d).outer, display: d },
    )
}

/// The matches reported for all requested identifiers, grouped by request in order.
pub open spec fn all_matches(ds: Seq<Display>, ids: Seq<DisplayIdentifier>) -> Seq<DisplayMatch> {
    ids.flat_map(|id: DisplayIdentifier| matches_for(ds, id))
}

/// Displays assembled from the logical displays in order, each taking the physical
/// display chosen for it from those not yet taken.
pub open spec fn assembled(ls: Seq<LogicalDisplay>, ps: Seq<PhysicalDisplay>) -> Seq<Display>
    decreases ls.len(),
{
    if ls.len() == 0 {
        seq![]
    } else {
        match chosen_physical(ls[0], ps) {
            Some(i) => seq![Display { physical: Some(ps[i]), logical: ls[0] }] + assembled(
                ls.drop_first(),
                ps.remove(i),
            ),
            None => seq![Display { physical: None, logical: ls[0] }] + assembled(
                ls.drop_first(),
                ps,
            ),
        }
    }
}

/// Like [`assembled`], taking for each logical display the first physical display whose path
/// prefixes its path.
pub open spec fn assembled_by_prefix(ls: Seq<LogicalDisplay>, ps: Seq<PhysicalDisplay>) -> Seq<
    Display,
>
    decreases ls.len(),
{
    if ls.len() == 0 {
        seq![]
    } else {
        match first_prefix_index(ls[0].metadata.path@, ps) {
            Some(i) => seq![Display { physical: Some(ps[i]), logical: ls[0] }]
                + assembled_by_prefix(ls.drop_first(), ps.remove(i)),
            None => seq![Display { physical: None, logical: ls[0] }] + assembled_by_prefix(
                ls.drop_first(),
                ps,
            ),
        }
    }
}

/// The outcome of one backend apply call: `Ok(true)`, `Ok(false)` or an error.
#[derive(Debug, PartialEq, Eq)]
pub enum ApplyOutcome {
    /// The backend applied the update.
    Applied,
    /// The backend left the update unapplied.
    NotApplied,
    /// The backend failed; the message describes the error.
    Failed { message: String },
}

/// What the caller reports back to [`DisplayManager::apply_step`].
#[derive(Debug, PartialEq, Eq)]
pub enum ApplyEvent {
    /// Work on a newly matched display starts.
    Start,
    /// The logical update asked for was attempted.
    LogicalApplied(ApplyOutcome),
    /// The physical update asked for was attempted.
    PhysicalApplied(ApplyOutcome),
}

/// What the caller must do next for the matched display.
#[derive(Debug, PartialEq, Eq)]
pub enum ApplyAction {
    /// Apply this logical update, then report `LogicalApplied`.
    ApplyLogical(LogicalDisplayUpdate),
    /// Apply this physical update, then report `PhysicalApplied`.
    ApplyPhysical(PhysicalDisplayUpdate),
    /// The matched display is recorded; move on.
    Done,
}

/// What one step records in the update result.
pub enum StepRecord {
    Nothing,
    Applied,
    Failed(Seq<char>),
}

/// Ask for the physical update unless validating or there is none; else finish.
pub open spec fn physical_or_done(
    requested: DisplayUpdate,
    matched: DisplayIdentifierInner,
    validate: bool,
) -> ApplyAction {
    if validate || requested.physical is None {
        ApplyAction::Done
    } else {
        ApplyAction::ApplyPhysical(
            PhysicalDisplayUpdate { id: matched, content: requested.physical.unwrap() },
        )
    }
}

/// The action that follows `event` for a display matched by `requested`.
pub open spec fn step_action(
    requested: DisplayUpdate,
    matched: DisplayIdentifierInner,
    validate: bool,
    event: ApplyEvent,
) -> ApplyAction {
    match event {
        ApplyEvent::Start => match requested.logical {
            Some(c) => ApplyAction::ApplyLogical(LogicalDisplayUpdate { id: matched, content: c }),
            None => physical_or_done(requested, matched, validate),
        },
        ApplyEvent::LogicalApplied(ApplyOutcome::Applied) => physical_or_done(
            requested,
            matched,
            validate,
        ),
        _ => ApplyAction::Done,
    }
}

/// What `event` records for the matched display.
pub open spec fn step_record(
    requested: DisplayUpdate,
    matched: DisplayIdentifierInner,
    validate: bool,
    event: ApplyEvent,
) -> StepRecord {
    match event {
        ApplyEvent::LogicalApplied(ApplyOutcome::NotApplied) => StepRecord::Failed(
            "logical update was not applied"@,
        ),
        ApplyEvent::LogicalApplied(ApplyOutcome::Failed { message }) => StepRecord::Failed(
            message@,
        ),
        ApplyEvent::PhysicalApplied(ApplyOutcome::Applied) => StepRecord::Applied,
        ApplyEvent::PhysicalApplied(ApplyOutcome::NotApplied) => StepRecord::Failed(
            "physical update was not applied"@,
        ),
        ApplyEvent::PhysicalApplied(ApplyOutcome::Failed { message }) => StepRecord::Failed(
            message@,
        ),
        _ => if step_action(requested, matched, validate, event) is Done {
            StepRecord::Applied
        } else {
            StepRecord::Nothing
        },
    }
}

/// Every match reported for a requested identifier carries that identifier, and the identifier
/// selects the matched display, whose identifier is the one reported as matched.
pub proof fn law_matches_select_their_display(ds: Seq<Display>, requested_id: DisplayIdentifier)
    ensures
        forall|i: int|
            0 <= i < matches_for(ds, requested_id).len() ==> {
                let m = #[trigger] matches_for(ds, requested_id)[i];
                &&& m.requested_id == requested_id
                &&& m.matched_id == display_id(m.display).outer
                &&& identifier_subset(requested_id@, m.matched_id@)
                &&& ds.contains(m.display)
            },
{
    let sel = selected(ds, requested_id);
    assert forall|i: int| 0 <= i < matches_for(ds, requested_id).len() implies {
        let m = #[trigger] matches_for(ds, requested_id)[i];
        &&& m.requested_id == requested_id
        &&& m.matched_id == display_id(m.display).outer
        &&& identifier_subset(requested_id@, m.matched_id@)
        &&& ds.contains(m.display)
    } by {
        assert(matches_for(ds, requested_id)[i].display == sel[i]);
        ds.lemma_filter_pred(|d: Display| selects(requested_id, d), i);
        assert(selects(requested_id, sel[i]));
        assert(sel.contains(sel[i]));
        ds.lemma_filter_contains_rev(|d: Display| selects(requested_id, d), sel[i]);
    }
}

/// A failed call, logical or physical, settles its display as failed with the call's own error
/// message, and a call the backend left unapplied settles it as failed with a fixed message;
/// in each case nothing more is asked for that display.
pub proof fn law_failed_calls_are_recorded_as_failures(
    u: DisplayUpdate,
    id: DisplayIdentifierInner,
    validate: bool,
    message: String,
)
    ensures
        step_record(u, id, validate, ApplyEvent::LogicalApplied(ApplyOutcome::Failed { message }))
            == StepRecord::Failed(message@),
        step_record(u, id, validate, ApplyEvent::PhysicalApplied(ApplyOutcome::Failed { message }))
            == StepRecord::Failed(message@),
        step_record(u, id, validate, ApplyEvent::LogicalApplied(ApplyOutcome::NotApplied))
            == StepRecord::Failed("logical update was not applied"@),
        step_record(u, id, validate, ApplyEvent::PhysicalApplied(ApplyOutcome::NotApplied))
            == StepRecord::Failed("physical update was not applied"@),
        step_action(u, id, validate, ApplyEvent::LogicalApplied(ApplyOutcome::Failed { message })) is Done,
        step_action(u, id, validate, ApplyEvent::PhysicalApplied(ApplyOutcome::Failed { message })) is Done,
        step_action(u, id, validate, ApplyEvent::LogicalApplied(ApplyOutcome::NotApplied)) is Done,
        step_action(u, id, validate, ApplyEvent::PhysicalApplied(ApplyOutcome::NotApplied)) is Done,
{
}

/// A display is recorded as applied only after every call it needed succeeded: the physical
/// call reported applied; or the logical call reported applied and no physical write was due;
/// or, when it starts, it needed no call at all.
pub proof fn law_applied_only_after_success(
    u: DisplayUpdate,
    id: DisplayIdentifierInner,
    validate: bool,
    event: ApplyEvent,
)
    ensures
        step_record(u, id, validate, event) is Applied ==> match event {
            ApplyEvent::Start => u.logical is None && (validate || u.physical is None),
            ApplyEvent::LogicalApplied(o) => o is Applied && (validate || u.physical is None),
            ApplyEvent::PhysicalApplied(o) => o is Applied,
        },
{
}

/// Every display that a requested identifier is a subset of is matched for that request: when
/// each field set on the request equals the display's field, the display is among the matches,
/// with its own identifier as the matched one.
pub proof fn law_every_matching_display_is_selected(
    ds: Seq<Display>,
    requested_id: DisplayIdentifier,
    j: int,
)
    requires
        0 <= j < ds.len(),
        requested_id@.0 is Some ==> requested_id@.0 == display_id(ds[j]).outer@.0,
        requested_id@.1 is Some ==> requested_id@.1 == display_id(ds[j]).outer@.1,
    ensures
        exists|i: int|
            0 <= i < matches_for(ds, requested_id).len() && (#[trigger] matches_for(ds, requested_id)[i]).display
                == ds[j] && matches_for(ds, requested_id)[i].matched_id == display_id(ds[j]).outer
                && matches_for(ds, requested_id)[i].requested_id == requested_id,
{
    let pred = |d: Display| selects(requested_id, d);
    assert(pred(ds[j]));
    ds.lemma_filter_contains(pred, j);
    let sel = selected(ds, requested_id);
    let i = choose|i: int| 0 <= i < sel.len() && sel[i] == ds[j];
    assert(matches_for(ds, requested_id)[i].display == ds[j]);
}

/// Every display an update's identifier is a subset of is a target of that update.
pub proof fn law_every_matching_display_is_targeted(
    ds: Seq<Display>,
    updates: Seq<DisplayUpdate>,
    k: int,
    j: int,
)
    requires
        0 <= k < updates.len(),
        0 <= j < ds.len(),
        updates[k].id@.0 is Some ==> updates[k].id@.0 == display_id(ds[j]).outer@.0,
        updates[k].id@.1 is Some ==> updates[k].id@.1 == display_id(ds[j]).outer@.1,
    ensures
        update_targets(ds, updates)[k].0 == updates[k],
        update_targets(ds, updates)[k].1.contains(display_id(ds[j])),
{
    let u = updates[k];
    let pred = |d: Display| selects(u.id, d);
    assert(pred(ds[j]));
    ds.lemma_filter_contains(pred, j);
    let sel = selected(ds, u.id);
    let i = choose|i: int| 0 <= i < sel.len() && sel[i] == ds[j];
    let ids = sel.map_values(|d: Display| display_id(d));
    assert(ids[i] == display_id(ds[j]));
    assert(update_targets(ds, updates)[k].1 == ids);
}

/// The applied identifiers after recording `id` once.
pub open spec fn applied_once(applied: Seq<DisplayIdentifier>, id: DisplayIdentifier) -> Seq<
    DisplayIdentifier,
> {
    if id_views(applied).contains(id@) {
        applied
    } else {
        applied.push(id)
    }
}

/// A fresh result for `requested_update`, with nothing applied or failed yet.
pub fn new_update_result(requested_update: &DisplayUpdate) -> (r: DisplayUpdateResult)
    ensures
        r.requested_update == *requested_update,
        r.applied@.len() == 0,
        r.failed@.len() == 0,
{
    DisplayUpdateResult {
        requested_update: requested_update.clone(),
        applied: Vec::new(),
        failed: Vec::new(),
    }
}

/// Records `matched_id` as applied unless it already is.
pub fn push_applied_once(result: &mut DisplayUpdateResult, matched_id: DisplayIdentifier)
    ensures
        final(result).requested_update == old(result).requested_update,
        final(result).failed@ == old(result).failed@,
        final(result).applied@ == applied_once(old(result).applied@, matched_id),
{
    let n = result.applied.len();
    for k in 0..n
        invariant
            n == result.applied@.len(),
            result == old(result),
            forall|j: int| 0 <= j < k ==> (#[trigger] result.applied@[j])@ != matched_id@,
    {
        if result.applied[k].same_as(&matched_id) {
            assert(id_views(result.applied@)[k as int] == matched_id@);
            return;
        }
    }
    proof {
        if id_views(result.applied@).contains(matched_id@) {
            let j = choose|j: int|
                0 <= j < id_views(result.applied@).len() && id_views(result.applied@)[j]
                    == matched_id@;
            assert(result.applied@[j]@ == matched_id@);
        }
    }
    result.applied.push(matched_id);
}

/// Records a failure for `matched_id`.
pub fn push_failed(result: &mut DisplayUpdateResult, matched_id: DisplayIdentifier, message: String)
    ensures
        final(result).requested_update == old(result).requested_update,
        final(result).applied@ == old(result).applied@,
        final(result).failed@ == old(result).failed@.push(
            FailedDisplayUpdate { matched_id, message },
        ),
{
    result.failed.push(FailedDisplayUpdate { matched_id, message });
}

fn continue_after_logical(
    result: &mut DisplayUpdateResult,
    matched_id: &DisplayIdentifierInner,
    validate: bool,
) -> (r: ApplyAction)
    ensures
        r == physical_or_done(old(result).requested_update, *matched_id, validate),
        final(result).requested_update == old(result).requested_update,
        final(result).failed@ == old(result).failed@,
        final(result).applied@ == if r is Done {
            applied_once(old(result).applied@, matched_id.outer)
        } else {
            old(result).applied@
        },
{
    match result.requested_update.physical {
        Some(content) => {
            if validate {
                push_applied_once(result, matched_id.outer.clone());
                ApplyAction::Done
            } else {
                ApplyAction::ApplyPhysical(PhysicalDisplayUpdate { id: matched_id.clone(), content })
            }
        },
        None => {
            push_applied_once(result, matched_id.outer.clone());
            ApplyAction::Done
        },
    }
}

impl DisplayManager {
    /// Assembles displays: each logical display, in order, with the physical display that
    /// uniquely matches it among those not yet taken.
    pub fn query(
        logical_displays: Vec<LogicalDisplay>,
        physical_displays: Vec<PhysicalDisplay>,
    ) -> (r: Vec<Display>)
        ensures
            r@ == assembled(logical_displays@, physical_displays@),
    {
        let mut physical = physical_displays;
        let mut displays: Vec<Display> = Vec::new();
        let n = logical_displays.len();
        assert(logical_displays@.skip(0) == logical_displays@);
        assert(displays@ + assembled(logical_displays@, physical@) == assembled(
            logical_displays@,
            physical@,
        ));
        for k in 0..n
            invariant
                n == logical_displays@.len(),
                displays@ + assembled(logical_displays@.skip(k as int), physical@) == assembled(
                    logical_displays@,
                    physical_displays@,
                ),
        {
            let ghost before = physical@;
            let logical = logical_displays[k].clone();
            let taken = take_matching_physical_display(&logical, &mut physical);
            let ghost rest = logical_displays@.skip(k as int);
            assert(rest[0] == logical);
            assert(rest.drop_first() == logical_displays@.skip(k + 1));
            let ghost old_displays = displays@;
            displays.push(Display { physical: taken, logical });
            assert(displays@ == old_displays + seq![displays@.last()]);
        }
        assert(logical_displays@.skip(n as int) == Seq::<LogicalDisplay>::empty());
        assert(displays@ + Seq::<Display>::empty() == displays@);
        displays
    }

    /// Assembles displays, taking for each logical display the first remaining physical display
    /// whose path prefixes the logical display's path.
    pub fn query_by_path_prefix(
        logical_displays: Vec<LogicalDisplay>,
        physical_displays: Vec<PhysicalDisplay>,
    ) -> (r: Vec<Display>)
        ensures
            r@ == assembled_by_prefix(logical_displays@, physical_displays@),
    {
        let mut physical = physical_displays;
        let mut displays: Vec<Display> = Vec::new();
        let n = logical_displays.len();
        assert(logical_displays@.skip(0) == logical_displays@);
        assert(displays@ + assembled_by_prefix(logical_displays@, physical@) == assembled_by_prefix(
            logical_displays@,
            physical@,
        ));
        for k in 0..n
            invariant
                n == logical_displays@.len(),
                displays@ + assembled_by_prefix(logical_displays@.skip(k as int), physical@)
                    == assembled_by_prefix(logical_displays@, physical_displays@),
        {
            let logical = logical_displays[k].clone();
            let taken = take_physical_display_by_path_prefix(&logical, &mut physical);
            let ghost rest = logical_displays@.skip(k as int);
            assert(rest[0] == logical);
            assert(rest.drop_first() == logical_displays@.skip(k + 1));
            let ghost old_displays = displays@;
            displays.push(Display { physical: taken, logical });
            assert(displays@ == old_displays + seq![displays@.last()]);
        }
        assert(logical_displays@.skip(n as int) == Seq::<LogicalDisplay>::empty());
        assert(displays@ + Seq::<Display>::empty() == displays@);
        displays
    }
}


/// The pairs handed to the apply loop: each update with the identifiers of the displays it selects.
pub open spec fn update_targets(ds: Seq<Display>, updates: Seq<DisplayUpdate>) -> Seq<
    (DisplayUpdate, Seq<DisplayIdentifierInner>),
> {
    updates.map_values(
        |u: DisplayUpdate| (u, selected(ds, u.id).map_values(|d: Display| display_id(d))),
    )
}

/// Lists the displays selected by `requested_id`, in order.
pub fn matching_displays(displays: &Vec<Display>, requested_id: &DisplayIdentifier) -> (r: Vec<
    Display,
>)
    ensures
        r@ == selected(displays@, *requested_id),
{
    let mut r: Vec<Display> = Vec::new();
    let n = displays.len();
    for k in 0..n
        invariant
            n == displays@.len(),
            r@ == displays@.take(k as int).filter(|d: Display| selects(*requested_id, d)),
    {
        proof {
            assert(displays@.take(k + 1) == displays@.take(k as int).push(displays@[k as int]));
            displays@.take(k as int).lemma_filter_push(
                displays@[k as int],
                |d: Display| selects(*requested_id, d),
            );
        }
        let id = displays[k].id();
        if requested_id.is_subset(&id.outer) {
            r.push(displays[k].clone());
        }
    }
    assert(displays@.take(n as int) == displays@);
    r
}

impl DisplayManager {
    /// Looks up, for each requested identifier in order, the displays it selects.
    pub fn get(displays: &Vec<Display>, ids: Vec<DisplayIdentifier>) -> (r: Vec<DisplayMatch>)
        ensures
            r@ == all_matches(displays@, ids@),
    {
        let mut r: Vec<DisplayMatch> = Vec::new();
        let n = ids.len();
        for k in 0..n
            invariant
                n == ids@.len(),
                r@ == all_matches(displays@, ids@.take(k as int)),
        {
            let requested_id = ids[k].clone();
            let found = matching_displays(displays, &requested_id);
            let ghost before = r@;
            let m = found.len();
            for j in 0..m
                invariant
                    m == found@.len(),
                    found@ == selected(displays@, requested_id),
                    r@ == before + matches_for(displays@, requested_id).take(j as int),
            {
                let display = found[j].clone();
                let matched_id = display.id().outer;
                r.push(DisplayMatch { requested_id: requested_id.clone(), matched_id, display });
                assert(matches_for(displays@, requested_id).take(j + 1) == matches_for(
                    displays@,
                    requested_id,
                ).take(j as int).push(matches_for(displays@, requested_id)[j as int]));
            }
            assert(matches_for(displays@, requested_id).take(m as int) == matches_for(
                displays@,
                requested_id,
            ));
            proof {
                ids@.lemma_flat_map_take_append(|id: DisplayIdentifier| matches_for(displays@, id), k as int);
            }
        }
        assert(ids@.take(n as int) == ids@);
        r
    }

    /// Pairs each update, in order, with the identifiers of the displays it selects.
    pub fn matched_updates(displays: &Vec<Display>, updates: Vec<DisplayUpdate>) -> (r: Vec<
        (DisplayUpdate, Vec<DisplayIdentifierInner>),
    >)
        ensures
            r@.len() == updates@.len(),
            forall|k: int|
                0 <= k < r@.len() ==> (#[trigger] r@[k]).0 == updates@[k] && r@[k].1@
                    == update_targets(displays@, updates@)[k].1,
    {
        let mut r: Vec<(DisplayUpdate, Vec<DisplayIdentifierInner>)> = Vec::new();
        let n = updates.len();
        for k in 0..n
            invariant
                n == updates@.len(),
                r@.len() == k,
                forall|j: int|
                    0 <= j < k ==> (#[trigger] r@[j]).0 == updates@[j] && r@[j].1@
                        == update_targets(displays@, updates@)[j].1,
        {
            let update = updates[k].clone();
            let found = matching_displays(displays, &update.id);
            let mut ids: Vec<DisplayIdentifierInner> = Vec::new();
            let m = found.len();
            for j in 0..m
                invariant
                    m == found@.len(),
                    found@ == selected(displays@, update.id),
                    ids@ == found@.take(j as int).map_values(|d: Display| display_id(d)),
            {
                ids.push(found[j].id());
                assert(found@.take(j + 1).map_values(|d: Display| display_id(d)) == found@.take(
                    j as int,
                ).map_values(|d: Display| display_id(d)).push(display_id(found@[j as int])));
            }
            assert(found@.take(m as int) == found@);
            r.push((update, ids));
        }
        r
    }

    /// Advances the work on one matched display.
    ///
    /// The caller starts with `Start`, performs each requested action, and reports its
    /// outcome, until `Done`. Validation never asks for a physical update; each matched
    /// display ends recorded once, as applied or as failed.
    pub fn apply_step(
        result: &mut DisplayUpdateResult,
        matched_id: &DisplayIdentifierInner,
        validate: bool,
        event: ApplyEvent,
    ) -> (r: ApplyAction)
        ensures
            r == step_action(old(result).requested_update, *matched_id, validate, event),
            final(result).requested_update == old(result).requested_update,
            match step_record(old(result).requested_update, *matched_id, validate, event) {
                StepRecord::Nothing => final(result).applied@ == old(result).applied@
                    && final(result).failed@ == old(result).failed@,
                StepRecord::Applied => final(result).applied@ == applied_once(
                    old(result).applied@,
                    matched_id.outer,
                ) && final(result).failed@ == old(result).failed@,
                StepRecord::Failed(message) => final(result).applied@ == old(result).applied@
                    && final(result).failed@.len() == old(result).failed@.len() + 1
                    && final(result).failed@.drop_last() == old(result).failed@
                    && final(result).failed@.last().matched_id == matched_id.outer
                    && final(result).failed@.last().message@ == message,
            },
    {
        match event {
            ApplyEvent::Start => match result.requested_update.logical {
                Some(content) => ApplyAction::ApplyLogical(
                    LogicalDisplayUpdate { id: matched_id.clone(), content },
                ),
                None => continue_after_logical(result, matched_id, validate),
            },
            ApplyEvent::LogicalApplied(outcome) => match outcome {
                ApplyOutcome::Applied => continue_after_logical(result, matched_id, validate),
                ApplyOutcome::NotApplied => {
                    push_failed(
                        result,
                        matched_id.outer.clone(),
                        "logical update was not applied".to_owned(),
                    );
                    ApplyAction::Done
                },
                ApplyOutcome::Failed { message } => {
                    push_failed(result, matched_id.outer.clone(), message);
                    ApplyAction::Done
                },
            },
            ApplyEvent::PhysicalApplied(outcome) => match outcome {
                ApplyOutcome::Applied => {
                    push_applied_once(result, matched_id.outer.clone());
                    ApplyAction::Done
                },
                ApplyOutcome::NotApplied => {
                    push_failed(
                        result,
                        matched_id.outer.clone(),
                        "physical update was not applied".to_owned(),
                    );
                    ApplyAction::Done
                },
                ApplyOutcome::Failed { message } => {
                    push_failed(result, matched_id.outer.clone(), message);
                    ApplyAction::Done
                },
            },
        }
    }
}


// ---------------------------------------------------------------------------
// Laws
// ---------------------------------------------------------------------------
/// The physical displays attached to a sequence of displays, in order.
pub open spec fn attached(ds: Seq<Display>) -> Seq<PhysicalDisplay>
    decreases ds.len(),
{
    if ds.len() == 0 {
        seq![]
    } else {
        match ds[0].physical {
            Some(p) => seq![p] + attached(ds.drop_first()),
            None => attached(ds.drop_first()),
        }
    }
}

/// Assembling yields exactly one display per logical display, in the logical displays' order.
pub proof fn law_assembled_keeps_logical_order(ls: Seq<LogicalDisplay>, ps: Seq<PhysicalDisplay>)
    ensures
        assembled(ls, ps).len() == ls.len(),
        forall|i: int| 0 <= i < ls.len() ==> (#[trigger] assembled(ls, ps)[i]).logical == ls[i],
    decreases ls.len(),
{
    if ls.len() > 0 {
        let rest = ls.drop_first();
        match chosen_physical(ls[0], ps) {
            Some(i) => law_assembled_keeps_logical_order(rest, ps.remove(i)),
            None => law_assembled_keeps_logical_order(rest, ps),
        }
        assert forall|i: int| 0 <= i < ls.len() implies (#[trigger] assembled(ls, ps)[i]).logical
            == ls[i] by {
            if i > 0 {
                assert(rest[i - 1] == ls[i]);
            }
        }
    }
}

proof fn lemma_chosen_in_range(l: LogicalDisplay, ps: Seq<PhysicalDisplay>)
    ensures
        match chosen_physical(l, ps) {
            Some(i) => 0 <= i < ps.len(),
            None => true,
        },
{
    lemma_unique_index_in_range(tier_flags(ps, |p: PhysicalDisplay| connector_matches(l, p)));
    lemma_unique_index_in_range(tier_flags(ps, |p: PhysicalDisplay| serial_matches(l, p)));
    lemma_unique_index_in_range(tier_flags(ps, |p: PhysicalDisplay| model_matches(l, p)));
    lemma_unique_index_in_range(tier_flags(ps, |p: PhysicalDisplay| name_matches(l, p)));
}

/// Each physical display is attached to at most one assembled display: the attached
/// physical displays are a sub-multiset of those queried.
pub proof fn law_physical_attached_at_most_once(ls: Seq<LogicalDisplay>, ps: Seq<PhysicalDisplay>)
    ensures
        attached(assembled(ls, ps)).to_multiset().subset_of(ps.to_multiset()),
    decreases ls.len(),
{
    broadcast use vstd::seq_lib::group_to_multiset_ensures, vstd::multiset::group_multiset_axioms;

    if ls.len() > 0 {
        let rest = ls.drop_first();
        let out = assembled(ls, ps);
        match chosen_physical(ls[0], ps) {
            Some(i) => {
                lemma_chosen_in_range(ls[0], ps);
                law_physical_attached_at_most_once(rest, ps.remove(i));
                let tail = assembled(rest, ps.remove(i));
                assert(out.drop_first() == tail);
                assert(attached(out) == seq![ps[i]] + attached(tail));
                vstd::seq_lib::lemma_multiset_commutative(seq![ps[i]], attached(tail));
                assert(seq![ps[i]].to_multiset() =~= Multiset::empty().insert(ps[i])) by {
                    assert(Seq::<PhysicalDisplay>::empty().push(ps[i]) == seq![ps[i]]);
                }
                assert forall|x: PhysicalDisplay|
                    attached(out).to_multiset().count(x) <= ps.to_multiset().count(x) by {
                    assert(ps.remove(i).to_multiset() =~= ps.to_multiset().remove(ps[i]));
                }
            },
            None => {
                law_physical_attached_at_most_once(rest, ps);
                let tail = assembled(rest, ps);
                assert(out.drop_first() == tail);
                assert(attached(out) == attached(tail));
            },
        }
    }
}

/// Validation never asks for a physical update to be written.
pub proof fn law_validation_never_writes_physical(
    requested: DisplayUpdate,
    matched: DisplayIdentifierInner,
    event: ApplyEvent,
)
    ensures
        !(step_action(requested, matched, true, event) is ApplyPhysical),
{
}

/// A step records the matched display exactly when it finishes the work on it.
pub proof fn law_step_records_exactly_when_done(
    requested: DisplayUpdate,
    matched: DisplayIdentifierInner,
    validate: bool,
    event: ApplyEvent,
)
    ensures
        (step_record(requested, matched, validate, event) is Nothing) <==> !(step_action(
            requested,
            matched,
            validate,
            event,
        ) is Done),
{
}

/// The work on one display takes at most three steps: a logical outcome never asks for
/// another logical update, and a physical outcome always finishes.
pub proof fn law_steps_progress(
    requested: DisplayUpdate,
    matched: DisplayIdentifierInner,
    validate: bool,
    outcome: ApplyOutcome,
)
    ensures
        !(step_action(requested, matched, validate, ApplyEvent::LogicalApplied(outcome)) is ApplyLogical),
        step_action(requested, matched, validate, ApplyEvent::PhysicalApplied(outcome)) is Done,
{
}

/// Recording the same display as applied twice has the effect of recording it once.
pub proof fn law_applied_once_idempotent(applied: Seq<DisplayIdentifier>, id: DisplayIdentifier)
    ensures
        applied_once(applied_once(applied, id), id) == applied_once(applied, id),
{
    if !id_views(applied).contains(id@) {
        let a2 = applied.push(id);
        assert(id_views(a2)[applied.len() as int] == id@);
    }
}

} // verus!

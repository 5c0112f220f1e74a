//! Windows logical displays: the display configuration paths and their update plan.
use vstd::prelude::*;

use crate::order::{compare_displays, display_le, display_order, lemma_display_total, lemma_display_trans};
use crate::types::{
    identifier_subset, DisplayIdentifierInner, LogicalDisplay, LogicalDisplayMetadata,
    LogicalDisplayState, LogicalDisplayUpdate, Orientation, same_opt_string,
};

verus! {

/// An error reported by the Windows display configuration API.
#[derive(Debug, Clone, Copy, PartialEq, Eq)]
pub struct WindowsError {
    /// The Win32 error code.
    pub code: u32,
}

/// Errors that can occur while querying Windows logical displays.
#[derive(Debug, PartialEq, Eq)]
pub enum LogicalDisplayQueryError {
    WindowsError { source: WindowsError },
}

/// Errors that can occur while applying Windows logical display updates.
#[derive(Debug, PartialEq, Eq)]
pub enum LogicalDisplayApplyError {
    WindowsError { source: WindowsError },
}

/// Windows logical display manager.
#[derive(Clone, Copy)]
pub struct LogicalDisplayManagerWindows {}

// ---------------------------------------------------------------------------
// Distinct logical displays
// ---------------------------------------------------------------------------
/// The text of logical display metadata.
pub open spec fn metadata_key(m: LogicalDisplayMetadata) -> (
    Seq<char>,
    Seq<char>,
    Option<Seq<char>>,
    Option<Seq<char>>,
    Option<Seq<char>>,
    Option<u32>,
) {
    (
        m.name@,
        m.path@,
        m.manufacturer.deep_view(),
        m.model.deep_view(),
        m.serial_number.deep_view(),
        m.gdi_device_id,
    )
}

/// Two logical displays agree in every field.
pub open spec fn same_display(a: LogicalDisplay, b: LogicalDisplay) -> bool {
    metadata_key(a.metadata) == metadata_key(b.metadata) && a.state == b.state
}

/// `d` is reported: it is enabled, or no enabled display has the same metadata.
pub open spec fn reported(ds: Seq<LogicalDisplay>, d: LogicalDisplay) -> bool {
    d.state.is_enabled || !(exists|e: int|
        0 <= e < ds.len() && (#[trigger] ds[e]).state.is_enabled && metadata_key(ds[e].metadata)
            == metadata_key(d.metadata))
}

fn same_metadata(a: &LogicalDisplayMetadata, b: &LogicalDisplayMetadata) -> (r: bool)
    ensures
        r == (metadata_key(*a) == metadata_key(*b)),
{
    a.name == b.name && a.path == b.path && same_opt_string(&a.manufacturer, &b.manufacturer)
        && same_opt_string(&a.model, &b.model) && same_opt_string(
        &a.serial_number,
        &b.serial_number,
    ) && a.gdi_device_id == b.gdi_device_id
}

fn same_logical_display(a: &LogicalDisplay, b: &LogicalDisplay) -> (r: bool)
    ensures
        r == same_display(*a, *b),
{
    same_metadata(&a.metadata, &b.metadata) && a.state == b.state
}

fn contains_display(r: &Vec<LogicalDisplay>, d: &LogicalDisplay) -> (found: bool)
    ensures
        found == exists|i: int| 0 <= i < r@.len() && same_display(#[trigger] r@[i], *d),
{
    let n = r.len();
    for i in 0..n
        invariant
            n == r@.len(),
            forall|j: int| 0 <= j < i ==> !same_display(#[trigger] r@[j], *d),
    {
        if same_logical_display(&r[i], d) {
            return true;
        }
    }
    false
}


/// The displays in ascending display order.
pub open spec fn sorted_displays(s: Seq<LogicalDisplay>) -> bool {
    forall|i: int, k: int| 0 <= i < k < s.len() ==> display_le(#[trigger] s[i], #[trigger] s[k])
}

fn insert_display(out: &mut Vec<LogicalDisplay>, d: LogicalDisplay)
    requires
        sorted_displays(old(out)@),
    ensures
        sorted_displays(final(out)@),
        exists|p: int| 0 <= p <= old(out)@.len() && final(out)@ == old(out)@.insert(p, d),
{
    let mut p = out.len();
    while p > 0 && compare_displays(&out[p - 1], &d) > 0
        invariant
            p <= out@.len(),
            out@ == old(out)@,
            forall|k: int| p <= k < out@.len() ==> display_order(out@[k], d) > 0,
        decreases p,
    {
        p = p - 1;
    }
    let ghost before = out@;
    proof {
        assert forall|k: int| 0 <= k < p implies display_le(#[trigger] before[k], d) by {
            assert(display_le(before[p - 1], d));
            if k < p - 1 {
                lemma_display_trans(before[k], before[p - 1], d);
            }
        }
        assert forall|k: int| p <= k < before.len() implies display_le(d, #[trigger] before[k]) by {
            lemma_display_total(before[k], d);
        }
    }
    out.insert(p, d);
    proof {
        let after = out@;
        before.insert_ensures(p as int, d);
        assert forall|i: int, j: int| 0 <= i < j < after.len() implies display_le(
            #[trigger] after[i],
            #[trigger] after[j],
        ) by {
            if i < p && j < p {
            } else if i < p && j == p {
            } else if i < p && j > p {
                assert(after[j] == before[j - 1]);
                lemma_display_trans(before[i], d, before[j - 1]);
            } else if i == p {
                assert(after[j] == before[j - 1]);
            } else {
                assert(after[i] == before[i - 1]);
                assert(after[j] == before[j - 1]);
            }
        }
        assert(after == before.insert(p as int, d));
    }
}

/// No two of the displays agree in every field.
pub open spec fn distinct_displays(s: Seq<LogicalDisplay>) -> bool {
    forall|i: int, k: int| 0 <= i < k < s.len() ==> !same_display(#[trigger] s[i], #[trigger] s[k])
}

/// Each of `out` is one of the first `j` of `v`.
pub open spec fn drawn_from(out: Seq<LogicalDisplay>, v: Seq<LogicalDisplay>, j: int) -> bool {
    forall|k: int|
        #![trigger out[k]]
        0 <= k < out.len() ==> exists|i: int| #![trigger v[i]] 0 <= i < j && out[k] == v[i]
}

/// Each of the first `j` of `v` is in `out`.
pub open spec fn covers(out: Seq<LogicalDisplay>, v: Seq<LogicalDisplay>, j: int) -> bool {
    forall|i: int|
        #![trigger v[i]]
        0 <= i < j ==> exists|k: int| #![trigger out[k]] 0 <= k < out.len() && out[k] == v[i]
}

proof fn lemma_sort_step_drawn(v: Seq<LogicalDisplay>, before: Seq<LogicalDisplay>, p: int, j: int)
    requires
        0 <= j < v.len(),
        0 <= p <= before.len(),
        drawn_from(before, v, j),
    ensures
        drawn_from(before.insert(p, v[j]), v, j + 1),
{
    let out = before.insert(p, v[j]);
    before.insert_ensures(p, v[j]);
    assert forall|k: int| #![trigger out[k]] 0 <= k < out.len() implies exists|i: int|
        #![trigger v[i]]
        0 <= i < j + 1 && out[k] == v[i] by {
        if k == p {
            assert(out[k] == v[j]);
        } else {
            let k0 = if k < p { k } else { k - 1 };
            assert(out[k] == before[k0]);
            let i = choose|i: int| #![trigger v[i]] 0 <= i < j && before[k0] == v[i];
            assert(out[k] == v[i]);
        }
    }
}

proof fn lemma_sort_step_covers(v: Seq<LogicalDisplay>, before: Seq<LogicalDisplay>, p: int, j: int)
    requires
        0 <= j < v.len(),
        0 <= p <= before.len(),
        covers(before, v, j),
    ensures
        covers(before.insert(p, v[j]), v, j + 1),
{
    let out = before.insert(p, v[j]);
    before.insert_ensures(p, v[j]);
    assert forall|i: int| #![trigger v[i]] 0 <= i < j + 1 implies exists|k: int|
        #![trigger out[k]]
        0 <= k < out.len() && out[k] == v[i] by {
        if i == j {
            assert(out[p] == v[i]);
        } else {
            let k = choose|k: int| #![trigger before[k]] 0 <= k < before.len() && before[k] == v[i];
            let k1 = if k < p { k } else { k + 1 };
            assert(out[k1] == v[i]);
        }
    }
}

proof fn lemma_sort_step_distinct(v: Seq<LogicalDisplay>, before: Seq<LogicalDisplay>, p: int, j: int)
    requires
        0 <= j < v.len(),
        0 <= p <= before.len(),
        distinct_displays(v),
        distinct_displays(before),
        drawn_from(before, v, j),
    ensures
        distinct_displays(before.insert(p, v[j])),
{
    let out = before.insert(p, v[j]);
    before.insert_ensures(p, v[j]);
    assert forall|a: int, b: int| 0 <= a < b < out.len() implies !same_display(
        #[trigger] out[a],
        #[trigger] out[b],
    ) by {
        if a != p && b != p {
            let a0 = if a < p { a } else { a - 1 };
            let b0 = if b < p { b } else { b - 1 };
            assert(out[a] == before[a0]);
            assert(out[b] == before[b0]);
        } else {
            let o = if a == p { b } else { a };
            let o0 = if o < p { o } else { o - 1 };
            assert(out[o] == before[o0]);
            let i = choose|i: int| #![trigger v[i]] 0 <= i < j && before[o0] == v[i];
            assert(!same_display(v[i], v[j]));
        }
    }
}

/// The same distinct displays, in ascending display order.
fn sort_displays(v: Vec<LogicalDisplay>) -> (out: Vec<LogicalDisplay>)
    requires
        distinct_displays(v@),
    ensures
        sorted_displays(out@),
        distinct_displays(out@),
        drawn_from(out@, v@, v@.len() as int),
        covers(out@, v@, v@.len() as int),
{
    let n = v.len();
    let mut out: Vec<LogicalDisplay> = Vec::new();
    let mut j: usize = 0;
    while j < n
        invariant
            j <= n,
            n == v@.len(),
            distinct_displays(v@),
            sorted_displays(out@),
            distinct_displays(out@),
            drawn_from(out@, v@, j as int),
            covers(out@, v@, j as int),
        decreases n - j,
    {
        let d = v[j].clone();
        let ghost before = out@;
        insert_display(&mut out, d);
        proof {
            let p = choose|p: int| 0 <= p <= before.len() && out@ == before.insert(p, d);
            lemma_sort_step_drawn(v@, before, p, j as int);
            lemma_sort_step_covers(v@, before, p, j as int);
            lemma_sort_step_distinct(v@, before, p, j as int);
        }
        j = j + 1;
    }
    out
}

impl LogicalDisplayManagerWindows {
    /// The distinct logical displays among those the display configuration lists.
    ///
    /// A display can be listed both enabled and disabled; then only its enabled entries count.
    /// Each reported display is listed once, in ascending display order.
    pub fn metadata(logical_displays: Vec<LogicalDisplay>) -> (r: Vec<LogicalDisplay>)
        ensures
            sorted_displays(r@),
            forall|i: int|
                0 <= i < r@.len() ==> logical_displays@.contains(#[trigger] r@[i]) && reported(
                    logical_displays@,
                    r@[i],
                ),
            forall|j: int|
                0 <= j < logical_displays@.len() && reported(logical_displays@, #[trigger] logical_displays@[j])
                    ==> exists|i: int| 0 <= i < r@.len() && same_display(#[trigger] r@[i], logical_displays@[j]),
            forall|i: int, k: int| 0 <= i < k < r@.len() ==> !same_display(#[trigger] r@[i], #[trigger] r@[k]),
    {
        let ghost ds = logical_displays@;
        let n = logical_displays.len();
        let mut r: Vec<LogicalDisplay> = Vec::new();
        // Enabled displays first.
        for j in 0..n
            invariant
                n == ds.len(),
                ds == logical_displays@,
                forall|i: int| 0 <= i < r@.len() ==> ds.contains(#[trigger] r@[i]) && r@[i].state.is_enabled,
                forall|x: int|
                    0 <= x < j && ds[x].state.is_enabled ==> exists|i: int|
                        0 <= i < r@.len() && same_display(#[trigger] r@[i], ds[x]),
                forall|i: int, k: int| 0 <= i < k < r@.len() ==> !same_display(#[trigger] r@[i], #[trigger] r@[k]),
        {
            let d = &logical_displays[j];
            if d.state.is_enabled && !contains_display(&r, d) {
                let ghost before = r@;
                r.push(d.clone());
                proof {
                    assert(ds.contains(ds[j as int]));
                    assert(r@[before.len() as int] == ds[j as int]);
                    assert forall|x: int|
                        0 <= x <= j && ds[x].state.is_enabled implies exists|i: int|
                            0 <= i < r@.len() && same_display(#[trigger] r@[i], ds[x]) by {
                        if x < j {
                            let i = choose|i: int| 0 <= i < before.len() && same_display(#[trigger] before[i], ds[x]);
                            assert(r@[i] == before[i]);
                        } else {
                            assert(same_display(r@[before.len() as int], ds[x]));
                        }
                    }
                    assert forall|i: int, k: int| 0 <= i < k < r@.len() implies !same_display(#[trigger] r@[i], #[trigger] r@[k]) by {
                        if k == before.len() {
                            assert(r@[i] == before[i]);
                        } else {
                            assert(r@[i] == before[i]);
                            assert(r@[k] == before[k]);
                        }
                    }
                }
            } else {
                proof {
                    if d.state.is_enabled {
                        assert forall|x: int|
                            0 <= x <= j && ds[x].state.is_enabled implies exists|i: int|
                                0 <= i < r@.len() && same_display(#[trigger] r@[i], ds[x]) by {
                            if x == j {
                                let i = choose|i: int| 0 <= i < r@.len() && same_display(#[trigger] r@[i], ds[j as int]);
                                assert(same_display(r@[i], ds[x]));
                            }
                        }
                    }
                }
            }
        }
        let ghost enabled_count = r@.len();
        // Then disabled displays that no enabled display stands for.
        for j in 0..n
            invariant
                n == ds.len(),
                ds == logical_displays@,
                forall|i: int| 0 <= i < r@.len() ==> ds.contains(#[trigger] r@[i]) && reported(ds, r@[i]),
                forall|x: int|
                    0 <= x < ds.len() && ds[x].state.is_enabled ==> exists|i: int|
                        0 <= i < r@.len() && same_display(#[trigger] r@[i], ds[x]),
                forall|x: int|
                    0 <= x < j && reported(ds, ds[x]) ==> exists|i: int|
                        0 <= i < r@.len() && same_display(#[trigger] r@[i], ds[x]),
                forall|i: int, k: int| 0 <= i < k < r@.len() ==> !same_display(#[trigger] r@[i], #[trigger] r@[k]),
        {
            let d = &logical_displays[j];
            if !d.state.is_enabled {
                let mut shadowed = false;
                for e in 0..n
                    invariant
                        n == ds.len(),
                        ds == logical_displays@,
                        *d == ds[j as int],
                        shadowed == exists|y: int|
                            0 <= y < e && (#[trigger] ds[y]).state.is_enabled && metadata_key(ds[y].metadata)
                                == metadata_key(d.metadata),
                {
                    let other = &logical_displays[e];
                    if other.state.is_enabled && same_metadata(&other.metadata, &d.metadata) {
                        shadowed = true;
                    }
                }
                if !shadowed && !contains_display(&r, d) {
                    let ghost before = r@;
                    r.push(d.clone());
                    proof {
                        assert(ds.contains(ds[j as int]));
                        assert(reported(ds, ds[j as int]));
                        assert forall|x: int|
                            (0 <= x < ds.len() && ds[x].state.is_enabled) || (0 <= x <= j && reported(ds, ds[x]))
                                implies exists|i: int| 0 <= i < r@.len() && same_display(#[trigger] r@[i], ds[x]) by {
                            if x == j {
                                assert(same_display(r@[before.len() as int], ds[x]));
                            } else {
                                let i = choose|i: int| 0 <= i < before.len() && same_display(#[trigger] before[i], ds[x]);
                                assert(r@[i] == before[i]);
                            }
                        }
                        assert forall|i: int, k: int| 0 <= i < k < r@.len() implies !same_display(#[trigger] r@[i], #[trigger] r@[k]) by {
                            if k == before.len() {
                                assert(r@[i] == before[i]);
                            } else {
                                assert(r@[i] == before[i]);
                                assert(r@[k] == before[k]);
                            }
                        }
                    }
                } else {
                    proof {
                        assert forall|x: int| 0 <= x <= j && reported(ds, ds[x]) implies exists|i: int|
                            0 <= i < r@.len() && same_display(#[trigger] r@[i], ds[x]) by {
                            if x == j && !shadowed {
                                let i = choose|i: int| 0 <= i < r@.len() && same_display(#[trigger] r@[i], ds[j as int]);
                                assert(same_display(r@[i], ds[x]));
                            }
                            if x == j && shadowed {
                                let y = choose|y: int|
                                    0 <= y < n && (#[trigger] ds[y]).state.is_enabled && metadata_key(ds[y].metadata)
                                        == metadata_key(d.metadata);
                                assert(!reported(ds, ds[x]));
                            }
                        }
                    }
                }
            } else {
                proof {
                    assert forall|x: int| 0 <= x <= j && reported(ds, ds[x]) implies exists|i: int|
                        0 <= i < r@.len() && same_display(#[trigger] r@[i], ds[x]) by {
                        if x == j {
                            assert(ds[x].state.is_enabled);
                        }
                    }
                }
            }
        }
        let sorted = sort_displays(r);
        proof {
            let rs = r@;
            let out = sorted@;
            assert forall|i: int| 0 <= i < out.len() implies ds.contains(#[trigger] out[i]) && reported(ds, out[i]) by {
                let x = choose|x: int| #![trigger rs[x]] 0 <= x < rs.len() && out[i] == rs[x];
                assert(ds.contains(rs[x]) && reported(ds, rs[x]));
            }
            assert forall|j: int| 0 <= j < ds.len() && reported(ds, #[trigger] ds[j]) implies exists|i: int|
                0 <= i < out.len() && same_display(#[trigger] out[i], ds[j]) by {
                let x = choose|x: int| 0 <= x < rs.len() && same_display(#[trigger] rs[x], ds[j]);
                let k = choose|k: int| #![trigger out[k]] 0 <= k < out.len() && out[k] == rs[x];
                assert(same_display(out[k], ds[j]));
            }
        }
        sorted
    }
}


// ---------------------------------------------------------------------------
// The configuration paths and the update plan
// ---------------------------------------------------------------------------
/// One display configuration path, as the update plan sees it.
#[derive(Debug, PartialEq, Eq)]
pub struct PathEntry {
    /// The source (adapter output) the path uses.
    pub source_id: u32,
    /// Whether the path is active.
    pub is_active: bool,
    /// The target rotation.
    pub rotation: Orientation,
    /// The logical display the path stands for, when it converts to one.
    pub display: Option<LogicalDisplay>,
}

/// A path chosen for the new configuration, with its new settings.
#[derive(Debug, Clone, Copy, PartialEq, Eq, Structural)]
pub struct SelectedPath {
    /// The index of the path in the queried configuration.
    pub index: usize,
    /// Whether the path is to be active.
    pub is_active: bool,
    /// The rotation the path is to have.
    pub rotation: Orientation,
}

/// The new configuration and the updates no path took.
pub struct LogicalApplyPlan {
    /// The paths to hand to the configuration call, in order.
    pub selected: Vec<SelectedPath>,
    /// The updates that no path took.
    pub remaining: Vec<LogicalDisplayUpdate>,
    /// Whether any path was enabled or disabled.
    pub any_have_changed: bool,
}

/// The state of planning after some paths.
pub struct PlanState {
    pub selected: Seq<SelectedPath>,
    pub remaining: Seq<LogicalDisplayUpdate>,
    pub used: Seq<u32>,
    pub changed: bool,
}

/// A path's display is the one `id` addresses: the outer identifier selects it, and the path
/// and GDI device id agree where `id` carries them.
pub open spec fn display_matches(d: LogicalDisplay, id: DisplayIdentifierInner) -> bool {
    &&& identifier_subset(id.outer@, (Some(d.metadata.name@), d.metadata.serial_number.deep_view()))
    &&& (id.path.deep_view() matches Some(p) ==> p == d.metadata.path@)
    &&& (id.gdi_device_id matches Some(g) ==> d.metadata.gdi_device_id == Some(g))
}

/// The first update addressed to `d`.
pub open spec fn first_update_for(d: LogicalDisplay, ups: Seq<LogicalDisplayUpdate>) -> Option<int> {
    if exists|m: int| 0 <= m < ups.len() && display_matches(d, ups[m].id) && (forall|x: int|
        0 <= x < m ==> !display_matches(d, #[trigger] ups[x].id)) {
        Some(
            choose|m: int|
                0 <= m < ups.len() && display_matches(d, ups[m].id) && (forall|x: int|
                    0 <= x < m ==> !display_matches(d, #[trigger] ups[x].id)),
        )
    } else {
        None
    }
}

/// Planning one more path, the `index`-th.
///
/// The path takes the first remaining update addressed to its display: it is enabled or
/// disabled as asked (enabling needs its source to be free), and rotated as asked. A path
/// whose source is taken is left out, and its update remains.
pub open spec fn plan_step(s: PlanState, index: int, p: PathEntry) -> PlanState {
    match p.display {
        None => s,
        Some(d) => match first_update_for(d, s.remaining) {
            None => s,
            Some(m) => {
                let c = s.remaining[m].content;
                let rotation = match c.orientation {
                    Some(o) => o,
                    None => p.rotation,
                };
                let take = |active: bool, used: Seq<u32>, changed: bool|
                    PlanState {
                        selected: s.selected.push(
                            SelectedPath { index: index as usize, is_active: active, rotation },
                        ),
                        remaining: s.remaining.remove(m),
                        used,
                        changed,
                    };
                match c.is_enabled {
                    None => take(p.is_active, s.used, s.changed),
                    Some(true) => if p.is_active {
                        take(true, s.used, s.changed)
                    } else if s.used.contains(p.source_id) {
                        s
                    } else {
                        take(true, s.used.push(p.source_id), true)
                    },
                    Some(false) => if !p.is_active {
                        take(false, s.used, s.changed)
                    } else {
                        take(false, s.used.filter(|x: u32| x != p.source_id), true)
                    },
                }
            },
        },
    }
}

/// Planning the paths in order.
pub open spec fn plan_paths(paths: Seq<PathEntry>, init: PlanState) -> PlanState
    decreases paths.len(),
{
    if paths.len() == 0 {
        init
    } else {
        plan_step(plan_paths(paths.drop_last(), init), paths.len() - 1, paths.last())
    }
}

/// The sources of the active paths, in order.
pub open spec fn used_sources(paths: Seq<PathEntry>) -> Seq<u32> {
    paths.filter(|p: PathEntry| p.is_active).map_values(|p: PathEntry| p.source_id)
}

/// Lists the sources of the active paths.
pub fn get_used_source_ids(paths: &Vec<PathEntry>) -> (r: Vec<u32>)
    ensures
        r@ == used_sources(paths@),
{
    let mut r: Vec<u32> = Vec::new();
    let n = paths.len();
    for k in 0..n
        invariant
            n == paths@.len(),
            r@ == used_sources(paths@.take(k as int)),
    {
        proof {
            assert(paths@.take(k + 1) == paths@.take(k as int).push(paths@[k as int]));
            paths@.take(k as int).lemma_filter_push(paths@[k as int], |p: PathEntry| p.is_active);
        }
        if paths[k].is_active {
            r.push(paths[k].source_id);
        }
    }
    assert(paths@.take(n as int) == paths@);
    r
}

fn display_matches_exec(d: &LogicalDisplay, id: &DisplayIdentifierInner) -> (r: bool)
    ensures
        r == display_matches(*d, *id),
{
    let outer_ok = match &id.outer.name {
        Some(n) => *n == d.metadata.name,
        None => true,
    } && match (&id.outer.serial_number, &d.metadata.serial_number) {
        (Some(a), Some(b)) => *a == *b,
        (Some(_), None) => false,
        (None, _) => true,
    };
    let path_ok = match &id.path {
        Some(p) => *p == d.metadata.path,
        None => true,
    };
    let gdi_ok = match id.gdi_device_id {
        Some(g) => d.metadata.gdi_device_id == Some(g),
        None => true,
    };
    outer_ok && path_ok && gdi_ok
}

fn first_update_index(d: &LogicalDisplay, ups: &Vec<LogicalDisplayUpdate>) -> (r: Option<usize>)
    ensures
        match r {
            Some(m) => first_update_for(*d, ups@) == Some(m as int),
            None => first_update_for(*d, ups@) is None,
        },
{
    let n = ups.len();
    for m in 0..n
        invariant
            n == ups@.len(),
            forall|x: int| 0 <= x < m ==> !display_matches(*d, #[trigger] ups@[x].id),
    {
        if display_matches_exec(d, &ups[m].id) {
            proof {
                let c = choose|c: int|
                    0 <= c < ups@.len() && display_matches(*d, ups@[c].id) && (forall|x: int|
                        0 <= x < c ==> !display_matches(*d, #[trigger] ups@[x].id));
                if c < m {
                } else if c > m {
                    assert(!display_matches(*d, ups@[m as int].id));
                }
            }
            return Some(m);
        }
    }
    None
}

fn contains_u32(v: &Vec<u32>, x: u32) -> (r: bool)
    ensures
        r == v@.contains(x),
{
    let n = v.len();
    for i in 0..n
        invariant
            n == v@.len(),
            forall|j: int| 0 <= j < i ==> v@[j] != x,
    {
        if v[i] == x {
            assert(v@[i as int] == x);
            return true;
        }
    }
    false
}

fn without_u32(v: &Vec<u32>, x: u32) -> (r: Vec<u32>)
    ensures
        r@ == v@.filter(|y: u32| y != x),
{
    let mut r: Vec<u32> = Vec::new();
    let n = v.len();
    for i in 0..n
        invariant
            n == v@.len(),
            r@ == v@.take(i as int).filter(|y: u32| y != x),
    {
        proof {
            assert(v@.take(i + 1) == v@.take(i as int).push(v@[i as int]));
            v@.take(i as int).lemma_filter_push(v@[i as int], |y: u32| y != x);
        }
        if v[i] != x {
            r.push(v[i]);
        }
    }
    assert(v@.take(n as int) == v@);
    r
}

impl LogicalDisplayManagerWindows {
    /// Plans logical updates against the queried configuration paths.
    ///
    /// Each path, in order, takes the first remaining update addressed to its display; the
    /// chosen paths and the updates left over are returned.
    #[verifier::rlimit(40)]
    pub fn apply(paths: &Vec<PathEntry>, updates: Vec<LogicalDisplayUpdate>) -> (r: LogicalApplyPlan)
        ensures
            ({
                let fin = plan_paths(
                    paths@,
                    PlanState {
                        selected: seq![],
                        remaining: updates@,
                        used: used_sources(paths@),
                        changed: false,
                    },
                );
                &&& r.selected@ == fin.selected
                &&& r.remaining@ == fin.remaining
                &&& r.any_have_changed == fin.changed
            }),
    {
        let ghost init = PlanState {
            selected: seq![],
            remaining: updates@,
            used: used_sources(paths@),
            changed: false,
        };
        let mut used = get_used_source_ids(paths);
        let mut remaining = updates;
        let mut selected: Vec<SelectedPath> = Vec::new();
        let mut changed = false;
        let n = paths.len();
        for k in 0..n
            invariant
                n == paths@.len(),
                ({
                    let st = plan_paths(paths@.take(k as int), init);
                    &&& selected@ == st.selected
                    &&& remaining@ == st.remaining
                    &&& used@ == st.used
                    &&& changed == st.changed
                }),
        {
            assert(paths@.take(k + 1).drop_last() == paths@.take(k as int));
            assert(paths@.take(k + 1).last() == paths@[k as int]);
            let path = &paths[k];
            if let Some(d) = &path.display {
                if let Some(m) = first_update_index(d, &remaining) {
                    let content = remaining[m].content;
                    let rotation = match content.orientation {
                        Some(o) => o,
                        None => path.rotation,
                    };
                    let mut skip = false;
                    let mut active = path.is_active;
                    match content.is_enabled {
                        None => {},
                        Some(true) => {
                            if !path.is_active {
                                if contains_u32(&used, path.source_id) {
                                    skip = true;
                                } else {
                                    active = true;
                                    used.push(path.source_id);
                                    changed = true;
                                }
                            }
                        },
                        Some(false) => {
                            active = false;
                            if path.is_active {
                                used = without_u32(&used, path.source_id);
                                changed = true;
                            }
                        },
                    }
                    if !skip {
                        remaining.remove(m);
                        selected.push(SelectedPath { index: k, is_active: active, rotation });
                    }
                }
            }
        }
        assert(paths@.take(n as int) == paths@);
        LogicalApplyPlan { selected, remaining, any_have_changed: changed }
    }
}

// ---------------------------------------------------------------------------
// Mode tables
// ---------------------------------------------------------------------------
/// The mode index that marks a path without a mode (`DISPLAYCONFIG_PATH_MODE_IDX_INVALID`).
pub const MODE_INDEX_INVALID: u32 = 0xffff_ffff;

/// A path with its source and target modes, when it has them.
#[derive(Debug, Clone, Copy, PartialEq, Eq)]
pub struct PathInfo<P, M> {
    pub path: P,
    pub mode_source: Option<M>,
    pub mode_target: Option<M>,
}

/// The modes of one path, source first.
pub open spec fn path_modes<P, M>(pi: PathInfo<P, M>) -> Seq<M> {
    (match pi.mode_source {
        Some(m) => seq![m],
        None => seq![],
    }) + (match pi.mode_target {
        Some(m) => seq![m],
        None => seq![],
    })
}

/// The modes of all paths, in order.
pub open spec fn all_modes<P, M>(infos: Seq<PathInfo<P, M>>) -> Seq<M> {
    infos.flat_map(|pi: PathInfo<P, M>| path_modes(pi))
}

/// The mode indices given to the `i`-th path: where its source and target modes land in the
/// mode table, or the invalid index when it has none.
pub open spec fn mode_indices<P, M>(infos: Seq<PathInfo<P, M>>, i: int) -> (u32, u32) {
    let before = all_modes(infos.take(i)).len();
    let pi = infos[i];
    let source = match pi.mode_source {
        Some(_) => before as u32,
        None => MODE_INDEX_INVALID,
    };
    let target = match pi.mode_target {
        Some(_) => match pi.mode_source {
            Some(_) => (before + 1) as u32,
            None => before as u32,
        },
        None => MODE_INDEX_INVALID,
    };
    (source, target)
}

/// A path with the modes at the given indices of the mode table, where they are in range.
pub open spec fn path_info_at<P, M>(path: P, source_index: u32, target_index: u32, modes: Seq<M>) -> PathInfo<P, M> {
    PathInfo {
        path,
        mode_source: if (source_index as int) < modes.len() {
            Some(modes[source_index as int])
        } else {
            None
        },
        mode_target: if (target_index as int) < modes.len() {
            Some(modes[target_index as int])
        } else {
            None
        },
    }
}

proof fn lemma_path_modes_len<P, M>(pi: PathInfo<P, M>)
    ensures
        path_modes(pi).len() <= 2,
{
}

proof fn lemma_all_modes_len<P, M>(infos: Seq<PathInfo<P, M>>)
    ensures
        all_modes(infos).len() <= 2 * infos.len(),
    decreases infos.len(),
{
    if infos.len() > 0 {
        let p = infos.drop_last();
        lemma_all_modes_len(p);
        infos.lemma_flat_map_take_append(|pi: PathInfo<P, M>| path_modes(pi), infos.len() - 1);
        assert(infos.take(infos.len() - 1) == p);
        assert(infos.take(infos.len() as int) == infos);
        lemma_path_modes_len(infos.last());
    }
}

impl<P: Copy, M: Copy> PathInfo<P, M> {
    /// Splits paths into the path array and the mode table, giving each path the indices of
    /// its modes in the table.
    pub fn into_vecs(infos: Vec<PathInfo<P, M>>) -> (r: (Vec<(P, u32, u32)>, Vec<M>))
        requires
            2 * infos@.len() <= 0xffff_ffff,
        ensures
            r.1@ == all_modes(infos@),
            r.0@.len() == infos@.len(),
            forall|i: int|
                0 <= i < infos@.len() ==> (#[trigger] r.0@[i]).0 == infos@[i].path && (r.0@[i].1,
                r.0@[i].2) == mode_indices(infos@, i),
    {
        let mut paths: Vec<(P, u32, u32)> = Vec::new();
        let mut modes: Vec<M> = Vec::new();
        let n = infos.len();
        for k in 0..n
            invariant
                n == infos@.len(),
                2 * n <= 0xffff_ffff,
                modes@ == all_modes(infos@.take(k as int)),
                paths@.len() == k,
                forall|i: int|
                    0 <= i < k ==> (#[trigger] paths@[i]).0 == infos@[i].path && (paths@[i].1,
                    paths@[i].2) == mode_indices(infos@, i),
        {
            let pi = infos[k];
            proof {
                lemma_all_modes_len(infos@.take(k as int));
                infos@.lemma_flat_map_take_append(|x: PathInfo<P, M>| path_modes(x), k as int);
            }
            let source_index = match pi.mode_source {
                Some(m) => {
                    modes.push(m);
                    (modes.len() - 1) as u32
                },
                None => MODE_INDEX_INVALID,
            };
            let target_index = match pi.mode_target {
                Some(m) => {
                    modes.push(m);
                    (modes.len() - 1) as u32
                },
                None => MODE_INDEX_INVALID,
            };
            paths.push((pi.path, source_index, target_index));
            assert(modes@ == all_modes(infos@.take(k + 1)));
        }
        assert(infos@.take(n as int) == infos@);
        (paths, modes)
    }

    /// Each path with the modes its indices name, in order.
    pub fn get_path_infos(paths: &Vec<(P, u32, u32)>, modes: &Vec<M>) -> (r: Vec<PathInfo<P, M>>)
        ensures
            r@.len() == paths@.len(),
            forall|i: int|
                0 <= i < r@.len() ==> #[trigger] r@[i] == path_info_at(
                    paths@[i].0,
                    paths@[i].1,
                    paths@[i].2,
                    modes@,
                ),
    {
        let mut r: Vec<PathInfo<P, M>> = Vec::new();
        let n = paths.len();
        for k in 0..n
            invariant
                n == paths@.len(),
                r@.len() == k,
                forall|i: int|
                    0 <= i < k ==> #[trigger] r@[i] == path_info_at(
                        paths@[i].0,
                        paths@[i].1,
                        paths@[i].2,
                        modes@,
                    ),
        {
            let (path, source_index, target_index) = paths[k];
            r.push(Self::get_path_info(path, source_index, target_index, modes));
        }
        r
    }

    /// The path with the modes its indices name, when the indices are in range.
    pub fn get_path_info(path: P, source_index: u32, target_index: u32, modes: &Vec<M>) -> (r:
        PathInfo<P, M>)
        ensures
            r == path_info_at(path, source_index, target_index, modes@),
    {
        let s = source_index as usize;
        let t = target_index as usize;
        PathInfo {
            path,
            mode_source: if s < modes.len() {
                Some(modes[s])
            } else {
                None
            },
            mode_target: if t < modes.len() {
                Some(modes[t])
            } else {
                None
            },
        }
    }
}


proof fn lemma_modes_prefix<P, M>(infos: Seq<PathInfo<P, M>>, j: int)
    requires
        0 <= j <= infos.len(),
    ensures
        all_modes(infos.take(j)).len() <= all_modes(infos).len(),
        all_modes(infos).take(all_modes(infos.take(j)).len() as int) == all_modes(infos.take(j)),
    decreases infos.len() - j,
{
    if j == infos.len() {
        assert(infos.take(j) == infos);
        assert(all_modes(infos).take(all_modes(infos).len() as int) == all_modes(infos));
    } else {
        lemma_modes_prefix(infos, j + 1);
        infos.lemma_flat_map_take_append(|pi: PathInfo<P, M>| path_modes(pi), j);
        let small = all_modes(infos.take(j));
        let big = all_modes(infos.take(j + 1));
        assert(big.take(small.len() as int) == small);
        assert(all_modes(infos).take(small.len() as int) == all_modes(infos).take(big.len() as int).take(
            small.len() as int,
        ));
    }
}

/// Splitting paths into the path array and the mode table, then reading each path back with
/// the modes its indices name, gives the paths back.
pub proof fn law_path_infos_round_trip<P, M>(infos: Seq<PathInfo<P, M>>, i: int)
    requires
        0 <= i < infos.len(),
        2 * infos.len() <= 0xffff_ffff,
    ensures
        path_info_at(
            infos[i].path,
            mode_indices(infos, i).0,
            mode_indices(infos, i).1,
            all_modes(infos),
        ) == infos[i],
{
    let modes = all_modes(infos);
    lemma_all_modes_len(infos);
    lemma_all_modes_len(infos.take(i));
    lemma_modes_prefix(infos, i + 1);
    infos.lemma_flat_map_take_append(|pi: PathInfo<P, M>| path_modes(pi), i);
    let before = all_modes(infos.take(i));
    let upto = all_modes(infos.take(i + 1));
    let pi = infos[i];
    assert(upto == before + path_modes(pi));
    assert(modes.take(upto.len() as int) == upto);
    match pi.mode_source {
        Some(m) => {
            assert(upto[before.len() as int] == m);
            assert(modes[before.len() as int] == upto[before.len() as int]);
        },
        None => {},
    }
    match pi.mode_target {
        Some(m) => {
            let at: int = if pi.mode_source is Some {
                (before.len() + 1) as int
            } else {
                before.len() as int
            };
            assert(upto[at] == m);
            assert(modes[at] == upto[at]);
        },
        None => {},
    }
}

proof fn lemma_first_update_in_range(d: LogicalDisplay, ups: Seq<LogicalDisplayUpdate>)
    ensures
        match first_update_for(d, ups) {
            Some(m) => 0 <= m < ups.len(),
            None => true,
        },
{
}

/// Each chosen path takes exactly one update off the remaining ones: the chosen paths and the
/// remaining updates together number as many as the updates planned.
pub proof fn law_plan_accounts_for_every_update(paths: Seq<PathEntry>, init: PlanState)
    ensures
        plan_paths(paths, init).selected.len() + plan_paths(paths, init).remaining.len()
            == init.selected.len() + init.remaining.len(),
    decreases paths.len(),
{
    if paths.len() > 0 {
        law_plan_accounts_for_every_update(paths.drop_last(), init);
        let s = plan_paths(paths.drop_last(), init);
        match paths.last().display {
            Some(d) => lemma_first_update_in_range(d, s.remaining),
            None => {},
        }
    }
}

proof fn lemma_plan_step_selects_at_most_index(s: PlanState, index: int, p: PathEntry)
    ensures
        plan_step(s, index, p).selected == s.selected || plan_step(s, index, p).selected
            == s.selected.push(plan_step(s, index, p).selected.last()),
        plan_step(s, index, p).selected != s.selected ==> plan_step(s, index, p).selected.last().index
            == index as usize,
{
}

/// The chosen paths are listed once each, in configuration order.
pub proof fn law_plan_paths_in_order(paths: Seq<PathEntry>, init: PlanState)
    requires
        init.selected.len() == 0,
        paths.len() <= usize::MAX,
    ensures
        forall|a: int, b: int|
            0 <= a < b < plan_paths(paths, init).selected.len() ==> (#[trigger] plan_paths(paths, init).selected[a]).index
                < (#[trigger] plan_paths(paths, init).selected[b]).index,
        forall|a: int|
            0 <= a < plan_paths(paths, init).selected.len() ==> (#[trigger] plan_paths(paths, init).selected[a]).index
                < paths.len(),
    decreases paths.len(),
{
    if paths.len() > 0 {
        let q = paths.drop_last();
        law_plan_paths_in_order(q, init);
        let s = plan_paths(q, init);
        lemma_plan_step_selects_at_most_index(s, paths.len() - 1, paths.last());
        let t = plan_paths(paths, init);
        assert(t == plan_step(s, paths.len() - 1, paths.last()));
        if t.selected != s.selected {
            assert(t.selected.last().index == (paths.len() - 1) as usize);
            assert forall|a: int| 0 <= a < t.selected.len() - 1 implies t.selected[a] == s.selected[a] by {}
        }
    }
}


/// A path taken by an update is rotated as the update asks, and keeps its rotation when the
/// update sets no orientation: one planning step either chooses no path, or chooses path
/// `index` for one remaining update addressed to its display, takes that update off, and gives
/// the path the update's orientation, or the path's own rotation when the update has none.
pub proof fn law_plan_step_rotates_only_as_asked(s: PlanState, index: int, p: PathEntry)
    ensures
        ({
            let r = plan_step(s, index, p);
            ||| r.selected == s.selected && r.remaining == s.remaining
            ||| {
                &&& r.selected == s.selected.push(r.selected.last())
                &&& r.selected.last().index == index as usize
                &&& exists|m: int|
                    0 <= m < s.remaining.len() && r.remaining == s.remaining.remove(m) && p.display is Some
                        && display_matches(p.display->0, s.remaining[m].id)
                        && r.selected.last().rotation == (match s.remaining[m].content.orientation {
                        Some(o) => o,
                        None => p.rotation,
                    })
            }
        }),
{
    match p.display {
        Some(d) => {
            lemma_first_update_in_range(d, s.remaining);
            match first_update_for(d, s.remaining) {
                Some(m) => {
                    let w = choose|w: int|
                        0 <= w < s.remaining.len() && display_matches(d, s.remaining[w].id) && (
                        forall|x: int| 0 <= x < w ==> !display_matches(d, #[trigger] s.remaining[x].id));
                    assert(m == w);
                },
                None => {},
            }
        },
        None => {},
    }
}

/// A chosen path whose rotation changes takes it from an update that asks for it: every path
/// chosen while planning either keeps its own rotation or has the orientation some planned
/// update sets. The updates left over are among those planned.
pub proof fn law_plan_rotates_only_as_asked(paths: Seq<PathEntry>, init: PlanState)
    requires
        paths.len() <= usize::MAX,
    ensures
        plan_paths(paths, init).selected.len() >= init.selected.len(),
        plan_paths(paths, init).selected.take(init.selected.len() as int) == init.selected,
        forall|m: int|
            0 <= m < plan_paths(paths, init).remaining.len() ==> init.remaining.contains(
                #[trigger] plan_paths(paths, init).remaining[m],
            ),
        forall|k: int|
            init.selected.len() <= k < plan_paths(paths, init).selected.len() ==> {
                let sp = #[trigger] plan_paths(paths, init).selected[k];
                &&& sp.index < paths.len()
                &&& (sp.rotation == paths[sp.index as int].rotation || exists|m: int|
                    0 <= m < init.remaining.len() && init.remaining[m].content.orientation == Some(
                        sp.rotation,
                    ))
            },
    decreases paths.len(),
{
    if paths.len() > 0 {
        let q = paths.drop_last();
        law_plan_rotates_only_as_asked(q, init);
        let s = plan_paths(q, init);
        let idx = paths.len() - 1;
        law_plan_step_rotates_only_as_asked(s, idx, paths.last());
        let t = plan_paths(paths, init);
        assert(t == plan_step(s, idx, paths.last()));
        if t.selected != s.selected {
            let m = choose|m: int|
                0 <= m < s.remaining.len() && t.remaining == s.remaining.remove(m) && paths.last().display is Some
                    && display_matches(paths.last().display->0, s.remaining[m].id)
                    && t.selected.last().rotation == (match s.remaining[m].content.orientation {
                    Some(o) => o,
                    None => paths.last().rotation,
                });
            assert(init.remaining.contains(s.remaining[m]));
            let mi = choose|mi: int| 0 <= mi < init.remaining.len() && init.remaining[mi] == s.remaining[m];
            assert forall|x: int| 0 <= x < t.remaining.len() implies init.remaining.contains(
                #[trigger] t.remaining[x],
            ) by {
                if x < m {
                    assert(t.remaining[x] == s.remaining[x]);
                } else {
                    assert(t.remaining[x] == s.remaining[x + 1]);
                }
                assert(init.remaining.contains(s.remaining[if x < m { x } else { x + 1 }]));
            }
            assert forall|k: int| init.selected.len() <= k < t.selected.len() implies {
                let sp = #[trigger] t.selected[k];
                &&& sp.index < paths.len()
                &&& (sp.rotation == paths[sp.index as int].rotation || exists|m: int|
                    0 <= m < init.remaining.len() && init.remaining[m].content.orientation == Some(
                        sp.rotation,
                    ))
            } by {
                if k < t.selected.len() - 1 {
                    assert(t.selected[k] == s.selected[k]);
                    assert(q[s.selected[k].index as int] == paths[s.selected[k].index as int]);
                } else {
                    assert(t.selected[k].index == idx as usize);
                    assert(paths[idx] == paths.last());
                    if s.remaining[m].content.orientation is Some {
                        assert(init.remaining[mi].content.orientation == Some(t.selected[k].rotation));
                    }
                }
            }
            assert(t.selected.take(init.selected.len() as int) == s.selected.take(init.selected.len() as int));
        } else {
            assert forall|k: int| init.selected.len() <= k < t.selected.len() implies {
                let sp = #[trigger] t.selected[k];
                &&& sp.index < paths.len()
                &&& (sp.rotation == paths[sp.index as int].rotation || exists|m: int|
                    0 <= m < init.remaining.len() && init.remaining[m].content.orientation == Some(
                        sp.rotation,
                    ))
            } by {
                assert(q[s.selected[k].index as int] == paths[s.selected[k].index as int]);
            }
        }
    }
}

} // verus!

//! Linux physical displays: DDC/CI monitors and sysfs backlight devices.
use vstd::prelude::*;

use crate::backlight::{BrightnessUpdate, Device, DeviceClass, DeviceIdentifier, DeviceUpdate};
use crate::display::DisplayUpdate;
use crate::order::{compare_metadata, lemma_metadata_total, lemma_metadata_trans, metadata_le, metadata_order};
use crate::text::{
    append_chars, chars_of, contains_chars, contains_seq, decimal, decimal_string, fnv1a, fnv1a_str,
    hex16, hex16_string, lowercase, string_of, to_lowercase,
};
use crate::types::{
    copy_opt_string, identifier_subset, Brightness, DisplayIdentifier, DisplayIdentifierInner,
    PhysicalDisplay, PhysicalDisplayMetadata, PhysicalDisplayState, PhysicalDisplayUpdateContent,
};
use vstd::string::StringSliceAdditionalSpecFns;
use vstd::utf8::encode_utf8;

verus! {

/// Errors that can occur while querying Linux physical displays.
#[derive(Debug, PartialEq, Eq)]
pub enum PhysicalDisplayQueryError {
    Enumerate,
    MissingI2cAccess { display_id: String },
    PermissionDenied { display_id: String },
    UnsupportedMonitor { display_id: String, message: String },
    DdcOperation { display_id: String, message: String },
    BacklightQuery { message: String },
}

/// Errors that can occur while applying updates to Linux physical displays.
#[derive(Debug, PartialEq, Eq)]
pub enum PhysicalDisplayApplyError {
    Query { source: PhysicalDisplayQueryError },
    UnsupportedMonitor { display_id: String, message: String },
    PermissionDenied { display_id: String },
    MissingI2cAccess { display_id: String },
    DdcOperation { display_id: String, message: String },
    BacklightOperation { display_id: String, message: String },
}

/// Linux physical display manager.
pub struct PhysicalDisplayManagerLinux;

/// How long one monitor may take to apply a brightness change, in milliseconds.
pub const PER_MONITOR_APPLY_TIMEOUT_MS: u64 = 3500;

/// How a physical display is reached.
#[derive(Debug, PartialEq, Eq)]
pub enum LinuxPhysicalBackend {
    /// The `display_index`-th monitor enumerated over DDC/CI.
    Ddc { display_index: usize },
    /// A sysfs backlight device directory.
    Backlight { path: String },
}

impl Clone for LinuxPhysicalBackend {
    fn clone(&self) -> (r: Self)
        ensures
            r == *self,
    {
        match self {
            LinuxPhysicalBackend::Ddc { display_index } => LinuxPhysicalBackend::Ddc {
                display_index: *display_index,
            },
            LinuxPhysicalBackend::Backlight { path } => LinuxPhysicalBackend::Backlight {
                path: path.clone(),
            },
        }
    }
}

/// A physical display together with how to reach it.
#[derive(Debug, PartialEq, Eq)]
pub struct LinuxDisplayHandle {
    pub metadata: PhysicalDisplayMetadata,
    pub state: PhysicalDisplayState,
    pub backend: LinuxPhysicalBackend,
}

impl Clone for LinuxDisplayHandle {
    fn clone(&self) -> (r: Self)
        ensures
            r == *self,
    {
        LinuxDisplayHandle {
            metadata: self.metadata.clone(),
            state: self.state,
            backend: self.backend.clone(),
        }
    }
}

/// A brightness change to send over DDC/CI.
#[derive(Debug, PartialEq, Eq)]
pub struct DdcApplyUpdate {
    pub id: DisplayIdentifierInner,
    pub brightness: Option<u32>,
    pub display_index: usize,
}

/// A brightness change to write to a sysfs backlight device.
#[derive(Debug, PartialEq, Eq)]
pub struct BacklightApplyUpdate {
    pub id: DisplayIdentifierInner,
    pub brightness: Option<u32>,
    pub path: String,
}

/// What DDC/CI reports about a monitor.
#[derive(Debug, Clone, PartialEq, Eq)]
pub struct DdcDisplayInfo {
    /// The backend's identifier of the monitor.
    pub id: String,
    /// The model name from the EDID, when known.
    pub model_name: Option<String>,
    /// The serial number string from the EDID, when known.
    pub serial_number: Option<String>,
    /// The numeric serial number from the EDID, when known.
    pub serial: Option<u32>,
}

/// The identifier of a physical display with the given metadata.
pub open spec fn physical_id(m: PhysicalDisplayMetadata) -> DisplayIdentifierInner {
    DisplayIdentifierInner {
        outer: DisplayIdentifier { name: Some(m.name), serial_number: m.serial_number },
        path: Some(m.path),
        gdi_device_id: None,
    }
}

/// Builds the identifier of a physical display from its metadata.
pub fn id_from_metadata(metadata: &PhysicalDisplayMetadata) -> (r: DisplayIdentifierInner)
    ensures
        r == physical_id(*metadata),
{
    DisplayIdentifierInner {
        outer: DisplayIdentifier {
            name: Some(metadata.name.clone()),
            serial_number: copy_opt_string(&metadata.serial_number),
        },
        path: Some(metadata.path.clone()),
        gdi_device_id: None,
    }
}

impl LinuxDisplayHandle {
    /// The identifier of the handled display.
    pub fn id(&self) -> (r: DisplayIdentifierInner)
        ensures
            r == physical_id(self.metadata),
    {
        id_from_metadata(&self.metadata)
    }
}

/// A stable identifier derived from `value`: its 64-bit FNV-1a hash in 16 hex digits.
pub fn stable_fallback_id(value: &str) -> (r: String)
    ensures
        r@ == hex16(fnv1a(value.spec_bytes())),
{
    hex16_string(fnv1a_str(value))
}

fn concat(a: &str, b: &String) -> (r: String)
    ensures
        r@ == a@ + b@,
{
    let mut v = crate::text::chars_of(a);
    let w = crate::text::chars_of(b.as_str());
    let ghost start = v@;
    let m = w.len();
    for j in 0..m
        invariant
            m == w@.len(),
            v@ == start + w@.take(j as int),
    {
        v.push(w[j]);
        assert(w@.take(j + 1) == w@.take(j as int).push(w@[j as int]));
    }
    assert(w@.take(m as int) == w@);
    crate::text::string_of(&v)
}

/// The name of a DDC monitor: its model name, else `Display <id>`.
pub open spec fn ddc_name(info: DdcDisplayInfo) -> Seq<char> {
    match info.model_name {
        Some(n) => n@,
        None => "Display "@ + info.id@,
    }
}

/// The serial number of a DDC monitor: its serial string, else its numeric serial in decimal,
/// else a fallback derived from its id.
pub open spec fn ddc_serial(info: DdcDisplayInfo) -> Seq<char> {
    match info.serial_number {
        Some(s) => s@,
        None => match info.serial {
            Some(n) => decimal(n as nat),
            None => "fallback-"@ + hex16(fnv1a(encode_utf8(info.id@))),
        },
    }
}

/// Builds the metadata of a DDC monitor.
pub fn metadata_from_info(info: &DdcDisplayInfo) -> (r: PhysicalDisplayMetadata)
    ensures
        is_ddc_metadata(*info, r),
{
    let name = match &info.model_name {
        Some(n) => n.clone(),
        None => concat("Display ", &info.id),
    };
    let serial_number = match &info.serial_number {
        Some(s) => s.clone(),
        None => match info.serial {
            Some(n) => decimal_string(n),
            None => concat("fallback-", &stable_fallback_id(info.id.as_str())),
        },
    };
    PhysicalDisplayMetadata {
        path: info.id.clone(),
        name,
        manufacturer: None,
        model: None,
        serial_number: Some(serial_number),
    }
}

/// The handle of the `display_index`-th DDC monitor, whose brightness reads `brightness_percent`.
pub fn ddc_handle(display_index: usize, info: &DdcDisplayInfo, brightness_percent: u8) -> (r:
    LinuxDisplayHandle)
    ensures
        is_ddc_metadata(*info, r.metadata),
        r.state.brightness.spec_value() == if brightness_percent < 100 {
            brightness_percent
        } else {
            100
        },
        r.state.scale_factor == 100,
        r.backend == (LinuxPhysicalBackend::Ddc { display_index }),
{
    let metadata = metadata_from_info(info);
    let clamped = if brightness_percent < 100 {
        brightness_percent
    } else {
        100
    };
    LinuxDisplayHandle {
        metadata,
        state: PhysicalDisplayState { brightness: Brightness::new(clamped), scale_factor: 100 },
        backend: LinuxPhysicalBackend::Ddc { display_index },
    }
}

/// `m` is the metadata of the DDC monitor described by `info`.
pub open spec fn is_ddc_metadata(info: DdcDisplayInfo, m: PhysicalDisplayMetadata) -> bool {
    &&& m.path == info.id
    &&& m.name@ == ddc_name(info)
    &&& m.serial_number.deep_view() == Some(ddc_serial(info))
    &&& m.manufacturer is None
    &&& m.model is None
}

/// The handle of a sysfs backlight device: named by its directory, with an empty serial number.
pub fn backlight_handle_from_device(device: Device) -> (r: Result<
    LinuxDisplayHandle,
    PhysicalDisplayQueryError,
>)
    ensures
        r matches Ok(h) && h.metadata.path == device.metadata.path && h.metadata.name
            == device.metadata.id && h.metadata.serial_number.deep_view() == Some(
            Seq::<char>::empty(),
        ) && h.metadata.manufacturer is None && h.metadata.model is None
            && h.state.brightness.spec_value() == device.state.brightness_percent
            && h.state.scale_factor == 100 && h.backend == (LinuxPhysicalBackend::Backlight {
            path: device.metadata.path,
        }),
{
    let path = device.metadata.path;
    let name = device.metadata.id;
    let metadata = PhysicalDisplayMetadata {
        path: path.clone(),
        name,
        manufacturer: None,
        model: None,
        serial_number: Some(String::new()),
    };
    Ok(
        LinuxDisplayHandle {
            metadata,
            state: PhysicalDisplayState {
                brightness: Brightness::new(device.state.brightness_percent),
                scale_factor: 100,
            },
            backend: LinuxPhysicalBackend::Backlight { path },
        },
    )
}

/// A display update that asks for `brightness` on the display named by `id`.
pub fn display_update_with_brightness(id: DisplayIdentifier, brightness: u32) -> (r: DisplayUpdate)
    ensures
        r == (DisplayUpdate {
            id,
            logical: None,
            physical: Some(PhysicalDisplayUpdateContent { brightness: Some(brightness) }),
        }),
{
    DisplayUpdate {
        id,
        logical: None,
        physical: Some(PhysicalDisplayUpdateContent { brightness: Some(brightness) }),
    }
}

/// The sysfs request for a backlight update: the backlight device at the update's path, set to
/// the requested percentage capped at 100. `None` when no brightness is requested.
pub fn backlight_request(update: &BacklightApplyUpdate) -> (r: Option<DeviceUpdate>)
    ensures
        match update.brightness {
            None => r is None,
            Some(b) => r matches Some(req) && req.id.class == Some(DeviceClass::Backlight)
                && req.id.id is None && req.id.path == Some(update.path) && req.brightness == Some(
                BrightnessUpdate::Percent(if b < 100 {
                    b as u8
                } else {
                    100u8
                }),
            ),
        },
{
    match update.brightness {
        None => None,
        Some(brightness) => {
            let percent: u8 = if brightness < 100 {
                brightness as u8
            } else {
                100
            };
            Some(
                DeviceUpdate {
                    id: DeviceIdentifier {
                        class: Some(DeviceClass::Backlight),
                        id: None,
                        path: Some(update.path.clone()),
                    },
                    brightness: Some(BrightnessUpdate::Percent(percent)),
                },
            )
        },
    }
}


// ---------------------------------------------------------------------------
// Querying
// ---------------------------------------------------------------------------
/// Handles in ascending metadata order.
pub open spec fn sorted_by_metadata(hs: Seq<LinuxDisplayHandle>) -> bool {
    forall|i: int, j: int|
        0 <= i < j < hs.len() ==> metadata_le(#[trigger] hs[i].metadata, #[trigger] hs[j].metadata)
}

/// The physical display described by a handle.
pub open spec fn handle_display(h: LinuxDisplayHandle) -> PhysicalDisplay {
    PhysicalDisplay { metadata: h.metadata, state: h.state }
}

/// `h` sorts no later than `x`: the handles that go before `x` when it is inserted.
pub open spec fn not_after(h: LinuxDisplayHandle, x: LinuxDisplayHandle) -> bool {
    metadata_le(h.metadata, x.metadata)
}

/// `x` inserted into the ordered handles `s` after every handle that sorts no later than it.
pub open spec fn insert_after_equals(s: Seq<LinuxDisplayHandle>, x: LinuxDisplayHandle) -> Seq<
    LinuxDisplayHandle,
> {
    s.insert(s.filter(|h: LinuxDisplayHandle| not_after(h, x)).len() as int, x)
}

/// The handles in ascending metadata order, handles with equal metadata in their given order.
pub open spec fn stably_sorted(s: Seq<LinuxDisplayHandle>) -> Seq<LinuxDisplayHandle>
    decreases s.len(),
{
    if s.len() == 0 {
        s
    } else {
        insert_after_equals(stably_sorted(s.drop_last()), s.last())
    }
}

proof fn lemma_filter_prefix_len(
    s: Seq<LinuxDisplayHandle>,
    pred: spec_fn(LinuxDisplayHandle) -> bool,
    p: int,
)
    requires
        0 <= p <= s.len(),
        forall|k: int| 0 <= k < p ==> pred(#[trigger] s[k]),
        forall|k: int| p <= k < s.len() ==> !pred(#[trigger] s[k]),
    ensures
        s.filter(pred).len() == p,
    decreases s.len(),
{
    if s.len() > 0 {
        let q = s.drop_last();
        assert(q.push(s.last()) == s);
        q.lemma_filter_push(s.last(), pred);
        if p == s.len() {
            lemma_filter_prefix_len(q, pred, p - 1);
        } else {
            lemma_filter_prefix_len(q, pred, p);
        }
    } else {
        assert(s.filter(pred) =~= Seq::<LinuxDisplayHandle>::empty()) by {
            s.lemma_filter_len(pred);
        }
    }
}

fn insert_sorted(out: &mut Vec<LinuxDisplayHandle>, handle: LinuxDisplayHandle)
    requires
        sorted_by_metadata(old(out)@),
    ensures
        sorted_by_metadata(final(out)@),
        final(out)@.to_multiset() == old(out)@.to_multiset().insert(handle),
        final(out)@ == insert_after_equals(old(out)@, handle),
{
    let mut p = out.len();
    while p > 0 && compare_metadata(&out[p - 1].metadata, &handle.metadata) > 0
        invariant
            p <= out@.len(),
            out@ == old(out)@,
            forall|k: int| p <= k < out@.len() ==> metadata_order(out@[k].metadata, handle.metadata) > 0,
        decreases p,
    {
        p = p - 1;
    }
    let ghost before = out@;
    proof {
        assert forall|k: int| 0 <= k < p implies metadata_le(#[trigger] before[k].metadata, handle.metadata) by {
            assert(metadata_le(before[p - 1].metadata, handle.metadata));
            if k < p - 1 {
                lemma_metadata_trans(before[k].metadata, before[p - 1].metadata, handle.metadata);
            }
        }
        assert forall|k: int| p <= k < before.len() implies metadata_le(handle.metadata, #[trigger] before[k].metadata) by {
            lemma_metadata_total(before[k].metadata, handle.metadata);
        }
    }
    proof {
        assert forall|k: int| 0 <= k < p implies not_after(#[trigger] before[k], handle) by {}
        assert forall|k: int| p <= k < before.len() implies !not_after(#[trigger] before[k], handle) by {}
        lemma_filter_prefix_len(before, |h: LinuxDisplayHandle| not_after(h, handle), p as int);
    }
    out.insert(p, handle);
    proof {
        let after = out@;
        before.insert_ensures(p as int, handle);
        assert forall|i: int, j: int| 0 <= i < j < after.len() implies metadata_le(
            #[trigger] after[i].metadata,
            #[trigger] after[j].metadata,
        ) by {
            if i < p && j < p {
            } else if i < p && j == p {
            } else if i < p && j > p {
                assert(after[j] == before[j - 1]);
                lemma_metadata_trans(before[i].metadata, handle.metadata, before[j - 1].metadata);
            } else if i == p {
                assert(after[j] == before[j - 1]);
            } else {
                assert(after[i] == before[i - 1]);
                assert(after[j] == before[j - 1]);
            }
        }
        assert(after.remove(p as int) == before);
        broadcast use vstd::seq_lib::group_to_multiset_ensures;
        assert(after.remove(p as int).to_multiset() == after.to_multiset().remove(handle));
        assert(after.to_multiset().contains(handle)) by {
            assert(after[p as int] == handle);
            assert(after.contains(handle));
        }
        assert(after.to_multiset() =~= before.to_multiset().insert(handle)) by {
            broadcast use vstd::multiset::group_multiset_axioms;
        }
    }
}

impl PhysicalDisplayManagerLinux {
    /// The physical displays behind the given handles, in order.
    pub fn query(handles: Vec<LinuxDisplayHandle>) -> (r: Vec<PhysicalDisplay>)
        ensures
            r@ == handles@.map_values(|h: LinuxDisplayHandle| handle_display(h)),
    {
        let mut r: Vec<PhysicalDisplay> = Vec::new();
        let n = handles.len();
        for k in 0..n
            invariant
                n == handles@.len(),
                r@ == handles@.take(k as int).map_values(|h: LinuxDisplayHandle| handle_display(h)),
        {
            let h = &handles[k];
            r.push(PhysicalDisplay { metadata: h.metadata.clone(), state: h.state });
            assert(handles@.take(k + 1).map_values(|h: LinuxDisplayHandle| handle_display(h))
                == handles@.take(k as int).map_values(|h: LinuxDisplayHandle| handle_display(h)).push(
                handle_display(handles@[k as int]),
            ));
        }
        assert(handles@.take(n as int) == handles@);
        r
    }

    /// All handles, DDC monitors and backlight devices together, in ascending metadata order;
    /// handles with equal metadata keep their order.
    pub fn query_handles(
        ddc_handles: Vec<LinuxDisplayHandle>,
        backlight_handles: Vec<LinuxDisplayHandle>,
    ) -> (r: Vec<LinuxDisplayHandle>)
        ensures
            r@ == stably_sorted(ddc_handles@ + backlight_handles@),
            sorted_by_metadata(r@),
            r@.to_multiset() == (ddc_handles@ + backlight_handles@).to_multiset(),
    {
        let mut all = ddc_handles;
        let mut rest = backlight_handles;
        let ghost input = all@ + rest@;
        all.append(&mut rest);
        let mut out: Vec<LinuxDisplayHandle> = Vec::new();
        let n = all.len();
        assert(out@ =~= all@.take(0));
        for k in 0..n
            invariant
                n == all@.len(),
                all@ == input,
                sorted_by_metadata(out@),
                out@.to_multiset() == all@.take(k as int).to_multiset(),
                out@ == stably_sorted(all@.take(k as int)),
        {
            insert_sorted(&mut out, all[k].clone());
            proof {
                broadcast use vstd::seq_lib::group_to_multiset_ensures;
                assert(all@.take(k + 1) == all@.take(k as int).push(all@[k as int]));
                assert(all@.take(k + 1).drop_last() == all@.take(k as int));
            }
        }
        assert(all@.take(n as int) == all@);
        out
    }
}

// ---------------------------------------------------------------------------
// Planning updates
// ---------------------------------------------------------------------------
/// `u` selects handle `h`.
pub open spec fn handle_selected(u: DisplayUpdate, h: LinuxDisplayHandle) -> bool {
    identifier_subset(u.id@, physical_id(h.metadata).outer@)
}

/// The brightness an update asks for, if any.
pub open spec fn requested_brightness(u: DisplayUpdate) -> Option<u32> {
    match u.physical {
        Some(p) => p.brightness,
        None => None,
    }
}

/// The handles selected by `u`, in order.
pub open spec fn selected_handles(u: DisplayUpdate, hs: Seq<LinuxDisplayHandle>) -> Seq<
    LinuxDisplayHandle,
> {
    hs.filter(|h: LinuxDisplayHandle| handle_selected(u, h))
}

/// DDC work for one update: each selected DDC handle, in order.
pub open spec fn ddc_work(u: DisplayUpdate, hs: Seq<LinuxDisplayHandle>) -> Seq<DdcApplyUpdate> {
    hs.filter(|h: LinuxDisplayHandle| handle_selected(u, h) && h.backend is Ddc).map_values(
        |h: LinuxDisplayHandle|
            DdcApplyUpdate {
                id: physical_id(h.metadata),
                brightness: requested_brightness(u),
                display_index: h.backend->Ddc_display_index,
            },
    )
}

/// Backlight work for one update: each selected backlight handle, in order.
pub open spec fn backlight_work(u: DisplayUpdate, hs: Seq<LinuxDisplayHandle>) -> Seq<
    BacklightApplyUpdate,
> {
    hs.filter(|h: LinuxDisplayHandle| handle_selected(u, h) && h.backend is Backlight).map_values(
        |h: LinuxDisplayHandle|
            BacklightApplyUpdate {
                id: physical_id(h.metadata),
                brightness: requested_brightness(u),
                path: h.backend->Backlight_path,
            },
    )
}

/// The updates that select no handle.
pub open spec fn unmatched(ups: Seq<DisplayUpdate>, hs: Seq<LinuxDisplayHandle>) -> Seq<
    DisplayUpdate,
> {
    ups.filter(|u: DisplayUpdate| selected_handles(u, hs).len() == 0)
}

/// What applying updates to Linux physical displays amounts to.
pub struct ApplyPlan {
    /// Updates that matched no physical display.
    pub remaining: Vec<DisplayUpdate>,
    /// Brightness changes to send over DDC/CI.
    pub ddc_updates: Vec<DdcApplyUpdate>,
    /// Brightness changes to write to backlight devices.
    pub backlight_updates: Vec<BacklightApplyUpdate>,
}

impl PhysicalDisplayManagerLinux {
    /// Plans physical updates against the queried handles.
    ///
    /// Updates that select no handle remain. When validating, nothing is written; otherwise
    /// every selected handle receives the update's brightness through its backend.
    pub fn apply_display_updates(
        updates: Vec<DisplayUpdate>,
        handles: &Vec<LinuxDisplayHandle>,
        validate: bool,
    ) -> (r: ApplyPlan)
        ensures
            r.remaining@ == unmatched(updates@, handles@),
            r.ddc_updates@ == if validate {
                Seq::<DdcApplyUpdate>::empty()
            } else {
                updates@.flat_map(|u: DisplayUpdate| ddc_work(u, handles@))
            },
            r.backlight_updates@ == if validate {
                Seq::<BacklightApplyUpdate>::empty()
            } else {
                updates@.flat_map(|u: DisplayUpdate| backlight_work(u, handles@))
            },
    {
        let mut remaining: Vec<DisplayUpdate> = Vec::new();
        let mut ddc_updates: Vec<DdcApplyUpdate> = Vec::new();
        let mut backlight_updates: Vec<BacklightApplyUpdate> = Vec::new();
        let ghost hs = handles@;
        let n = updates.len();
        let m = handles.len();
        for k in 0..n
            invariant
                n == updates@.len(),
                m == hs.len(),
                hs == handles@,
                remaining@ == unmatched(updates@.take(k as int), hs),
                ddc_updates@ == if validate {
                    Seq::<DdcApplyUpdate>::empty()
                } else {
                    updates@.take(k as int).flat_map(|u: DisplayUpdate| ddc_work(u, hs))
                },
                backlight_updates@ == if validate {
                    Seq::<BacklightApplyUpdate>::empty()
                } else {
                    updates@.take(k as int).flat_map(|u: DisplayUpdate| backlight_work(u, hs))
                },
        {
            let update = &updates[k];
            let ghost u = updates@[k as int];
            let ghost ddc_before = ddc_updates@;
            let ghost bl_before = backlight_updates@;
            let mut matched = false;
            let brightness = match update.physical {
                Some(p) => p.brightness,
                None => None,
            };
            for j in 0..m
                invariant
                    m == hs.len(),
                    hs == handles@,
                    u == *update,
                    brightness == requested_brightness(u),
                    matched == (selected_handles(u, hs.take(j as int)).len() > 0),
                    ddc_updates@ == if validate {
                        ddc_before
                    } else {
                        ddc_before + ddc_work(u, hs.take(j as int))
                    },
                    backlight_updates@ == if validate {
                        bl_before
                    } else {
                        bl_before + backlight_work(u, hs.take(j as int))
                    },
            {
                let handle = &handles[j];
                let ghost h = hs[j as int];
                proof {
                    assert(hs.take(j + 1) == hs.take(j as int).push(h));
                    hs.take(j as int).lemma_filter_push(h, |x: LinuxDisplayHandle| handle_selected(u, x));
                    hs.take(j as int).lemma_filter_push(
                        h,
                        |x: LinuxDisplayHandle| handle_selected(u, x) && x.backend is Ddc,
                    );
                    hs.take(j as int).lemma_filter_push(
                        h,
                        |x: LinuxDisplayHandle| handle_selected(u, x) && x.backend is Backlight,
                    );
                }
                let id = handle.id();
                if update.id.is_subset(&id.outer) {
                    matched = true;
                    if !validate {
                        match &handle.backend {
                            LinuxPhysicalBackend::Ddc { display_index } => {
                                ddc_updates.push(
                                    DdcApplyUpdate { id, brightness, display_index: *display_index },
                                );
                            },
                            LinuxPhysicalBackend::Backlight { path } => {
                                backlight_updates.push(
                                    BacklightApplyUpdate { id, brightness, path: path.clone() },
                                );
                            },
                        }
                    }
                }
            }
            assert(hs.take(m as int) == hs);
            proof {
                assert(updates@.take(k + 1) == updates@.take(k as int).push(u));
                updates@.take(k as int).lemma_filter_push(
                    u,
                    |x: DisplayUpdate| selected_handles(x, hs).len() == 0,
                );
                updates@.lemma_flat_map_take_append(|x: DisplayUpdate| ddc_work(x, hs), k as int);
                updates@.lemma_flat_map_take_append(|x: DisplayUpdate| backlight_work(x, hs), k as int);
            }
            if !matched {
                remaining.push(update.clone());
            }
        }
        assert(updates@.take(n as int) == updates@);
        ApplyPlan { remaining, ddc_updates, backlight_updates }
    }
}


// ---------------------------------------------------------------------------
// Enumerating handles
// ---------------------------------------------------------------------------
/// What reading a DDC monitor's brightness (VCP feature 0x10) gave.
#[derive(Debug, PartialEq, Eq)]
pub enum DdcBrightnessReading {
    /// The feature was read: its maximum, and its value as a rounded percentage of that maximum.
    Read { maximum: u16, percent: u8 },
    /// Reading failed with this message.
    Failed { message: String },
}

/// A monitor found over DDC/CI, with what reading its brightness gave.
#[derive(Debug, PartialEq, Eq)]
pub struct DdcMonitor {
    pub info: DdcDisplayInfo,
    pub reading: DdcBrightnessReading,
}

/// The brightness a reading gives: none for a zero maximum or a failure other than an I/O
/// error, 0% for an I/O error.
pub open spec fn reading_percent(reading: DdcBrightnessReading) -> Option<u8> {
    match reading {
        DdcBrightnessReading::Read { maximum, percent } => if maximum == 0 {
            None
        } else {
            Some(percent)
        },
        DdcBrightnessReading::Failed { message } => if io_error_text(lowercase(message@)) {
            Some(0u8)
        } else {
            None
        },
    }
}

/// The brightness a DDC monitor is listed with, or `None` when the monitor is skipped.
pub fn ddc_reading_brightness(reading: &DdcBrightnessReading) -> (r: Option<u8>)
    ensures
        r == reading_percent(*reading),
{
    match reading {
        DdcBrightnessReading::Read { maximum, percent } => if *maximum == 0 {
            None
        } else {
            Some(*percent)
        },
        DdcBrightnessReading::Failed { message } => if is_io_error(message.as_str()) {
            Some(0)
        } else {
            None
        },
    }
}

/// The monitors that are listed, by position, with the brightness they are listed with.
pub open spec fn listed_monitors(ms: Seq<DdcMonitor>) -> Seq<(int, u8)>
    decreases ms.len(),
{
    if ms.len() == 0 {
        seq![]
    } else {
        let before = listed_monitors(ms.drop_last());
        match reading_percent(ms.last().reading) {
            Some(p) => before.push((ms.len() - 1, p)),
            None => before,
        }
    }
}

proof fn lemma_listed_monitors_in_range(ms: Seq<DdcMonitor>)
    ensures
        forall|i: int|
            0 <= i < listed_monitors(ms).len() ==> 0 <= (#[trigger] listed_monitors(ms)[i]).0
                < ms.len(),
    decreases ms.len(),
{
    if ms.len() > 0 {
        let before = listed_monitors(ms.drop_last());
        lemma_listed_monitors_in_range(ms.drop_last());
        assert forall|i: int|
            0 <= i < listed_monitors(ms).len() implies 0 <= (#[trigger] listed_monitors(ms)[i]).0
            < ms.len() by {
            match reading_percent(ms.last().reading) {
                Some(p) => {
                    assert(listed_monitors(ms) == before.push((ms.len() - 1, p)));
                    if i < before.len() {
                        assert(listed_monitors(ms)[i] == before[i]);
                        assert(0 <= before[i].0 < ms.len() - 1);
                    }
                },
                None => {
                    assert(listed_monitors(ms) == before);
                    assert(0 <= before[i].0 < ms.len() - 1);
                },
            }
        }
    }
}

/// `h` is the handle of the `index`-th DDC monitor `m`, listed with brightness `p`.
pub open spec fn is_ddc_handle(m: DdcMonitor, index: int, p: u8, h: LinuxDisplayHandle) -> bool {
    &&& is_ddc_metadata(m.info, h.metadata)
    &&& h.state.brightness.spec_value() == if p < 100 {
        p
    } else {
        100
    }
    &&& h.state.scale_factor == 100
    &&& h.backend == (LinuxPhysicalBackend::Ddc { display_index: index as usize })
}

/// `h` is the handle of the backlight device `d`: named by its directory, with an empty
/// serial number.
/// The devices of the backlight class, in order.
pub open spec fn backlight_devices(ds: Seq<Device>) -> Seq<Device> {
    ds.filter(|d: Device| d.metadata.class == DeviceClass::Backlight)
}

pub open spec fn is_backlight_handle(d: Device, h: LinuxDisplayHandle) -> bool {
    &&& h.metadata.path == d.metadata.path
    &&& h.metadata.name == d.metadata.id
    &&& h.metadata.serial_number.deep_view() == Some(Seq::<char>::empty())
    &&& h.metadata.manufacturer is None
    &&& h.metadata.model is None
    &&& h.state.brightness.spec_value() == d.state.brightness_percent
    &&& h.state.scale_factor == 100
    &&& h.backend == (LinuxPhysicalBackend::Backlight { path: d.metadata.path })
}

/// Why listing the backlight class directory failed.
#[derive(Debug, PartialEq, Eq)]
pub enum BacklightListError {
    /// The class directory does not exist.
    MissingClassDirectory,
    /// Any other failure, with its message.
    Other { message: String },
}

impl PhysicalDisplayManagerLinux {
    /// Lists the DDC monitors whose brightness could be read, in enumeration order, each with
    /// its position as display index.
    pub fn enumerate_ddc_handles(monitors: Vec<DdcMonitor>) -> (r: Vec<LinuxDisplayHandle>)
        ensures
            r@.len() == listed_monitors(monitors@).len(),
            forall|i: int|
                0 <= i < r@.len() ==> is_ddc_handle(
                    monitors@[listed_monitors(monitors@)[i].0],
                    listed_monitors(monitors@)[i].0,
                    listed_monitors(monitors@)[i].1,
                    #[trigger] r@[i],
                ),
            forall|i: int|
                0 <= i < listed_monitors(monitors@).len() ==> 0 <= (
                #[trigger] listed_monitors(monitors@)[i]).0 < monitors@.len(),
    {
        let mut r: Vec<LinuxDisplayHandle> = Vec::new();
        let n = monitors.len();
        assert(monitors@.take(0) =~= Seq::<DdcMonitor>::empty());
        for k in 0..n
            invariant
                n == monitors@.len(),
                r@.len() == listed_monitors(monitors@.take(k as int)).len(),
                forall|i: int|
                    0 <= i < r@.len() ==> is_ddc_handle(
                        monitors@[listed_monitors(monitors@.take(k as int))[i].0],
                        listed_monitors(monitors@.take(k as int))[i].0,
                        listed_monitors(monitors@.take(k as int))[i].1,
                        #[trigger] r@[i],
                    ),
        {
            let ghost prefix = monitors@.take(k + 1);
            assert(prefix.drop_last() == monitors@.take(k as int));
            assert(prefix.last() == monitors@[k as int]);
            let m = &monitors[k];
            let ghost before = listed_monitors(monitors@.take(k as int));
            match ddc_reading_brightness(&m.reading) {
                Some(p) => {
                    assert(listed_monitors(prefix) == before.push((k as int, p)));
                    r.push(ddc_handle(k, &m.info, p));
                    assert(r@.len() == listed_monitors(prefix).len());
                    assert forall|i: int|
                        0 <= i < r@.len() implies is_ddc_handle(
                        monitors@[listed_monitors(prefix)[i].0],
                        listed_monitors(prefix)[i].0,
                        listed_monitors(prefix)[i].1,
                        #[trigger] r@[i],
                    ) by {
                        if i < before.len() {
                            assert(listed_monitors(prefix)[i] == before[i]);
                        }
                    }
                },
                None => {
                    assert(listed_monitors(prefix) == before);
                },
            }
        }
        assert(monitors@.take(n as int) == monitors@);
        proof {
            lemma_listed_monitors_in_range(monitors@);
        }
        r
    }

    /// The handles of the listed devices of the backlight class, in order; other classes (such
    /// as LEDs) are not surfaced. A missing class directory lists none; any other listing
    /// failure is a query error carrying its message.
    pub fn enumerate_backlight_handles(listing: Result<Vec<Device>, BacklightListError>) -> (r:
        Result<Vec<LinuxDisplayHandle>, PhysicalDisplayQueryError>)
        ensures
            match listing {
                Ok(devices) => r matches Ok(hs) && hs@.len() == backlight_devices(devices@).len()
                    && forall|i: int|
                    0 <= i < hs@.len() ==> is_backlight_handle(
                        backlight_devices(devices@)[i],
                        #[trigger] hs@[i],
                    ),
                Err(BacklightListError::MissingClassDirectory) => r matches Ok(hs) && hs@.len() == 0,
                Err(BacklightListError::Other { message }) => r == Err::<
                    Vec<LinuxDisplayHandle>,
                    PhysicalDisplayQueryError,
                >(PhysicalDisplayQueryError::BacklightQuery { message }),
            },
    {
        match listing {
            Ok(devices) => {
                let ghost ds = devices@;
                let mut hs: Vec<LinuxDisplayHandle> = Vec::new();
                let n = devices.len();
                for k in 0..n
                    invariant
                        n == ds.len(),
                        ds == devices@,
                        hs@.len() == backlight_devices(ds.take(k as int)).len(),
                        forall|i: int|
                            0 <= i < hs@.len() ==> is_backlight_handle(
                                backlight_devices(ds.take(k as int))[i],
                                #[trigger] hs@[i],
                            ),
                {
                    proof {
                        assert(ds.take(k + 1) == ds.take(k as int).push(ds[k as int]));
                        ds.take(k as int).lemma_filter_push(ds[k as int], |d: Device| d.metadata.class == DeviceClass::Backlight);
                    }
                    if devices[k].metadata.class == DeviceClass::Backlight {
                        match backlight_handle_from_device(devices[k].clone()) {
                            Ok(h) => hs.push(h),
                            Err(_) => {},
                        }
                    }
                }
                proof {
                    assert(ds.take(n as int) == ds);
                }
                Ok(hs)
            },
            Err(BacklightListError::MissingClassDirectory) => Ok(Vec::new()),
            Err(BacklightListError::Other { message }) => Err(
                PhysicalDisplayQueryError::BacklightQuery { message },
            ),
        }
    }
}

// ---------------------------------------------------------------------------
// Writing brightness
// ---------------------------------------------------------------------------
/// The update that asks again for `brightness` on the display `id`.
pub open spec fn brightness_update(id: DisplayIdentifier, brightness: u32) -> DisplayUpdate {
    DisplayUpdate {
        id,
        logical: None,
        physical: Some(PhysicalDisplayUpdateContent { brightness: Some(brightness) }),
    }
}

/// The positions `0..n`, in order.
pub open spec fn positions(n: int) -> Seq<int> {
    Seq::new(n as nat, |i: int| i)
}

/// The `k`-th DDC update is written to its monitor: it asks for a brightness, names a monitor
/// that was enumerated, and no earlier update asking for a brightness named the same monitor.
pub open spec fn ddc_attempted(ups: Seq<DdcApplyUpdate>, display_count: int, k: int) -> bool {
    &&& ups[k].brightness is Some
    &&& (ups[k].display_index as int) < display_count
    &&& forall|i: int|
        0 <= i < k ==> !((#[trigger] ups[i]).brightness is Some && ups[i].display_index
            == ups[k].display_index)
}

/// The `k`-th DDC update is handed back: it asks for a brightness that did not get written.
pub open spec fn ddc_left(ups: Seq<DdcApplyUpdate>, display_count: int, written: Seq<bool>, k: int) -> bool {
    &&& ups[k].brightness is Some
    &&& !(ddc_attempted(ups, display_count, k) && k < written.len() && written[k])
}

/// The DDC updates handed back, in order.
pub open spec fn ddc_remaining_updates(
    ups: Seq<DdcApplyUpdate>,
    display_count: int,
    written: Seq<bool>,
) -> Seq<DisplayUpdate> {
    positions(ups.len() as int).filter(|k: int| ddc_left(ups, display_count, written, k)).map_values(
        |k: int| brightness_update(ups[k].id.outer, ups[k].brightness.unwrap()),
    )
}

/// The `k`-th backlight update is handed back: it asks for a brightness that was not applied.
pub open spec fn backlight_left(ups: Seq<BacklightApplyUpdate>, applied: Seq<bool>, k: int) -> bool {
    &&& ups[k].brightness is Some
    &&& !(k < applied.len() && applied[k])
}

/// The backlight updates handed back, in order.
pub open spec fn backlight_remaining_updates(ups: Seq<BacklightApplyUpdate>, applied: Seq<bool>) -> Seq<
    DisplayUpdate,
> {
    positions(ups.len() as int).filter(|k: int| backlight_left(ups, applied, k)).map_values(
        |k: int| brightness_update(ups[k].id.outer, ups[k].brightness.unwrap()),
    )
}

proof fn lemma_positions_take(n: int, k: int)
    requires
        0 <= k < n,
    ensures
        positions(n).take(k + 1) == positions(n).take(k).push(k),
        positions(n).take(n) == positions(n),
{
    assert(positions(n).take(k + 1) =~= positions(n).take(k).push(k));
    assert(positions(n).take(n) =~= positions(n));
}

fn contains_usize(v: &Vec<usize>, x: usize) -> (r: bool)
    ensures
        r == v@.contains(x),
{
    let n = v.len();
    for k in 0..n
        invariant
            n == v@.len(),
            forall|j: int| 0 <= j < k ==> v@[j] != x,
    {
        if v[k] == x {
            assert(v@[k as int] == x);
            return true;
        }
    }
    false
}

impl PhysicalDisplayManagerLinux {
    /// The positions of the DDC updates to write, in order: each asks for a brightness, names an
    /// enumerated monitor, and is the first such update for that monitor.
    pub fn ddc_attempts(updates: &Vec<DdcApplyUpdate>, display_count: usize) -> (r: Vec<usize>)
        ensures
            forall|i: int, j: int| 0 <= i < j < r@.len() ==> r@[i] < r@[j],
            forall|i: int|
                0 <= i < r@.len() ==> (#[trigger] r@[i]) < updates@.len() && ddc_attempted(
                    updates@,
                    display_count as int,
                    r@[i] as int,
                ),
            forall|k: int|
                0 <= k < updates@.len() && ddc_attempted(updates@, display_count as int, k)
                    ==> r@.contains(k as usize),
    {
        let mut r: Vec<usize> = Vec::new();
        let mut seen: Vec<usize> = Vec::new();
        let n = updates.len();
        for k in 0..n
            invariant
                n == updates@.len(),
                forall|i: int, j: int| 0 <= i < j < r@.len() ==> r@[i] < r@[j],
                forall|i: int|
                    0 <= i < r@.len() ==> (#[trigger] r@[i]) < k && ddc_attempted(
                        updates@,
                        display_count as int,
                        r@[i] as int,
                    ),
                forall|j: int|
                    0 <= j < k && ddc_attempted(updates@, display_count as int, j) ==> r@.contains(
                        j as usize,
                    ),
                forall|x: usize|
                    seen@.contains(x) <==> exists|i: int|
                        0 <= i < k && (#[trigger] updates@[i]).brightness is Some
                            && updates@[i].display_index == x,
        {
            let u = &updates[k];
            let idx = u.display_index;
            let used = contains_usize(&seen, idx);
            let attempt = u.brightness.is_some() && idx < display_count && !used;
            proof {
                if attempt {
                    assert forall|i: int|
                        0 <= i < k implies !((#[trigger] updates@[i]).brightness is Some
                        && updates@[i].display_index == updates@[k as int].display_index) by {
                        if updates@[i].brightness is Some && updates@[i].display_index == idx {
                            assert(seen@.contains(idx));
                        }
                    }
                } else if u.brightness.is_some() && idx < display_count {
                    let i = choose|i: int|
                        0 <= i < k && (#[trigger] updates@[i]).brightness is Some
                            && updates@[i].display_index == idx;
                    assert(updates@[i].brightness is Some && updates@[i].display_index
                        == updates@[k as int].display_index);
                }
                assert(attempt == ddc_attempted(updates@, display_count as int, k as int));
            }
            let ghost old_r = r@;
            if attempt {
                r.push(k);
                assert(r@[r@.len() - 1] == k);
            }
            proof {
                assert forall|j: int|
                    0 <= j < k + 1 && ddc_attempted(updates@, display_count as int, j) implies r@.contains(
                    j as usize,
                ) by {
                    if j < k {
                        let w = choose|w: int| 0 <= w < old_r.len() && old_r[w] == j as usize;
                        assert(r@[w] == j as usize);
                    }
                }
            }
            let ghost old_seen = seen@;
            if u.brightness.is_some() {
                seen.push(idx);
            }
            proof {
                assert forall|x: usize|
                    seen@.contains(x) <==> exists|i: int|
                        0 <= i < k + 1 && (#[trigger] updates@[i]).brightness is Some
                            && updates@[i].display_index == x by {
                    if seen@.contains(x) {
                        let j = choose|j: int| 0 <= j < seen@.len() && seen@[j] == x;
                        if j < old_seen.len() {
                            assert(old_seen[j] == x);
                            assert(old_seen.contains(x));
                        } else {
                            assert(updates@[k as int].brightness is Some);
                            assert(updates@[k as int].display_index == x);
                        }
                    }
                    if exists|i: int|
                        0 <= i < k + 1 && (#[trigger] updates@[i]).brightness is Some
                            && updates@[i].display_index == x {
                        let i = choose|i: int|
                            0 <= i < k + 1 && (#[trigger] updates@[i]).brightness is Some
                                && updates@[i].display_index == x;
                        if i < k {
                            assert(old_seen.contains(x));
                            let j = choose|j: int| 0 <= j < old_seen.len() && old_seen[j] == x;
                            assert(seen@[j] == x);
                        } else {
                            assert(seen@[seen@.len() - 1] == x);
                        }
                    }
                }
            }
        }
        r
    }

    /// The DDC updates handed back after writing: in order, each update asking for a brightness
    /// that was not written, where `written[k]` tells whether writing the `k`-th update
    /// succeeded (a position past its end counts as not written).
    pub fn ddc_remaining(
        updates: &Vec<DdcApplyUpdate>,
        display_count: usize,
        written: &Vec<bool>,
    ) -> (r: Vec<DisplayUpdate>)
        ensures
            r@ == ddc_remaining_updates(updates@, display_count as int, written@),
    {
        let attempts = Self::ddc_attempts(updates, display_count);
        let mut r: Vec<DisplayUpdate> = Vec::new();
        let n = updates.len();
        let ghost ps = positions(n as int);
        let ghost f = |k: int| ddc_left(updates@, display_count as int, written@, k);
        let ghost g = |k: int| brightness_update(updates@[k].id.outer, updates@[k].brightness.unwrap());
        for k in 0..n
            invariant
                n == updates@.len(),
                ps == positions(n as int),
                f == (|k: int| ddc_left(updates@, display_count as int, written@, k)),
                g == (|k: int| brightness_update(updates@[k].id.outer, updates@[k].brightness.unwrap())),
                forall|i: int|
                    0 <= i < attempts@.len() ==> (#[trigger] attempts@[i]) < updates@.len()
                        && ddc_attempted(updates@, display_count as int, attempts@[i] as int),
                forall|j: int|
                    0 <= j < updates@.len() && ddc_attempted(updates@, display_count as int, j)
                        ==> attempts@.contains(j as usize),
                r@ == ps.take(k as int).filter(f).map_values(g),
        {
            proof {
                lemma_positions_take(n as int, k as int);
                ps.take(k as int).lemma_filter_push(k as int, f);
            }
            match updates[k].brightness {
                Some(b) => {
                    let attempted = contains_usize(&attempts, k);
                    let ok = attempted && k < written.len() && written[k];
                    proof {
                        if attempted {
                            let i = choose|i: int| 0 <= i < attempts@.len() && attempts@[i] == k;
                            assert(ddc_attempted(updates@, display_count as int, attempts@[i] as int));
                        }
                        if ddc_attempted(updates@, display_count as int, k as int) {
                            assert(attempts@.contains(k));
                        }
                    }
                    if !ok {
                        r.push(display_update_with_brightness(updates[k].id.outer.clone(), b));
                    }
                },
                None => {},
            }
        }
        assert(ps.take(n as int) =~= ps);
        r
    }

    /// The backlight updates handed back after writing: in order, each update asking for a
    /// brightness that was not applied, where `applied[k]` tells whether the `k`-th request
    /// was applied (a position past its end counts as not applied).
    pub fn backlight_remaining(updates: &Vec<BacklightApplyUpdate>, applied: &Vec<bool>) -> (r: Vec<
        DisplayUpdate,
    >)
        ensures
            r@ == backlight_remaining_updates(updates@, applied@),
    {
        let mut r: Vec<DisplayUpdate> = Vec::new();
        let n = updates.len();
        let ghost ps = positions(n as int);
        let ghost f = |k: int| backlight_left(updates@, applied@, k);
        let ghost g = |k: int| brightness_update(updates@[k].id.outer, updates@[k].brightness.unwrap());
        for k in 0..n
            invariant
                n == updates@.len(),
                ps == positions(n as int),
                f == (|k: int| backlight_left(updates@, applied@, k)),
                g == (|k: int| brightness_update(updates@[k].id.outer, updates@[k].brightness.unwrap())),
                r@ == ps.take(k as int).filter(f).map_values(g),
        {
            proof {
                lemma_positions_take(n as int, k as int);
                ps.take(k as int).lemma_filter_push(k as int, f);
            }
            match updates[k].brightness {
                Some(b) => {
                    let ok = k < applied.len() && applied[k];
                    if !ok {
                        r.push(display_update_with_brightness(updates[k].id.outer.clone(), b));
                    }
                },
                None => {},
            }
        }
        assert(ps.take(n as int) =~= ps);
        r
    }
}

/// The brightness percentage to write for a request: the request capped at 100.
pub fn normalized_brightness(brightness: u32) -> (r: u32)
    ensures
        r == if brightness < 100 {
            brightness
        } else {
            100
        },
{
    if brightness < 100 {
        brightness
    } else {
        100
    }
}

/// A monitor whose brightness maximum reads 0 cannot have its brightness set: that is an
/// unsupported-monitor error; any other maximum is usable.
pub fn check_brightness_maximum(display_id: String, maximum: u16) -> (r: Result<
    (),
    PhysicalDisplayApplyError,
>)
    ensures
        maximum != 0 <==> r is Ok,
        maximum == 0 ==> (r matches Err(
            PhysicalDisplayApplyError::UnsupportedMonitor { display_id: d, message: m },
        ) && d@ == display_id@ && m@ == "reported brightness max value is 0"@),
{
    if maximum == 0 {
        Err(
            PhysicalDisplayApplyError::UnsupportedMonitor {
                display_id,
                message: "reported brightness max value is 0".to_owned(),
            },
        )
    } else {
        Ok(())
    }
}

/// Brightness is planned only for monitors the update's identifier is a subset of: every DDC
/// and backlight write planned for `u` targets a handle whose name equals the requested name
/// and whose serial number equals the requested serial number, wherever the request sets them.
/// Conversely, every DDC handle that agrees with the request on each field it sets is planned.
pub proof fn law_writes_target_only_selected_handles(u: DisplayUpdate, hs: Seq<LinuxDisplayHandle>, j: int)
    ensures
        forall|i: int|
            0 <= i < ddc_work(u, hs).len() ==> {
                let w = #[trigger] ddc_work(u, hs)[i];
                &&& (u.id@.0 is Some ==> w.id.outer@.0 == u.id@.0)
                &&& (u.id@.1 is Some ==> w.id.outer@.1 == u.id@.1)
            },
        forall|i: int|
            0 <= i < backlight_work(u, hs).len() ==> {
                let w = #[trigger] backlight_work(u, hs)[i];
                &&& (u.id@.0 is Some ==> w.id.outer@.0 == u.id@.0)
                &&& (u.id@.1 is Some ==> w.id.outer@.1 == u.id@.1)
            },
        0 <= j < hs.len() && hs[j].backend is Ddc && (u.id@.0 is Some ==> physical_id(
            hs[j].metadata,
        ).outer@.0 == u.id@.0) && (u.id@.1 is Some ==> physical_id(hs[j].metadata).outer@.1
            == u.id@.1) ==> ddc_work(u, hs).contains(
            DdcApplyUpdate {
                id: physical_id(hs[j].metadata),
                brightness: requested_brightness(u),
                display_index: hs[j].backend->Ddc_display_index,
            },
        ),
{
    let pd = |h: LinuxDisplayHandle| handle_selected(u, h) && h.backend is Ddc;
    let pb = |h: LinuxDisplayHandle| handle_selected(u, h) && h.backend is Backlight;
    let fd = |h: LinuxDisplayHandle|
        DdcApplyUpdate {
            id: physical_id(h.metadata),
            brightness: requested_brightness(u),
            display_index: h.backend->Ddc_display_index,
        };
    let fb = |h: LinuxDisplayHandle|
        BacklightApplyUpdate {
            id: physical_id(h.metadata),
            brightness: requested_brightness(u),
            path: h.backend->Backlight_path,
        };
    assert forall|i: int| 0 <= i < ddc_work(u, hs).len() implies {
        let w = #[trigger] ddc_work(u, hs)[i];
        &&& (u.id@.0 is Some ==> w.id.outer@.0 == u.id@.0)
        &&& (u.id@.1 is Some ==> w.id.outer@.1 == u.id@.1)
    } by {
        hs.lemma_filter_pred(pd, i);
        assert(ddc_work(u, hs)[i] == fd(hs.filter(pd)[i]));
    }
    assert forall|i: int| 0 <= i < backlight_work(u, hs).len() implies {
        let w = #[trigger] backlight_work(u, hs)[i];
        &&& (u.id@.0 is Some ==> w.id.outer@.0 == u.id@.0)
        &&& (u.id@.1 is Some ==> w.id.outer@.1 == u.id@.1)
    } by {
        hs.lemma_filter_pred(pb, i);
        assert(backlight_work(u, hs)[i] == fb(hs.filter(pb)[i]));
    }
    if 0 <= j < hs.len() && hs[j].backend is Ddc && (u.id@.0 is Some ==> physical_id(
        hs[j].metadata,
    ).outer@.0 == u.id@.0) && (u.id@.1 is Some ==> physical_id(hs[j].metadata).outer@.1 == u.id@.1) {
        assert(pd(hs[j]));
        hs.lemma_filter_contains(pd, j);
        let f = hs.filter(pd);
        let i = choose|i: int| 0 <= i < f.len() && f[i] == hs[j];
        assert(ddc_work(u, hs)[i] == fd(hs[j]));
    }
}

/// Within one apply, each DDC monitor receives at most one brightness write.
pub proof fn law_ddc_writes_each_monitor_once(ups: Seq<DdcApplyUpdate>, display_count: int, i: int, j: int)
    requires
        0 <= i < j < ups.len(),
        ddc_attempted(ups, display_count, i),
        ddc_attempted(ups, display_count, j),
    ensures
        ups[i].display_index != ups[j].display_index,
{
    assert(ups[i].brightness is Some);
}

// ---------------------------------------------------------------------------
// Error classification and messages
// ---------------------------------------------------------------------------
/// The apply error for a DDC failure, classified by the lower-cased message text.
pub open spec fn classify(display_id: String, message: String, lower: Seq<char>) -> PhysicalDisplayApplyError {
    if contains_seq(lower, "permission denied"@) {
        PhysicalDisplayApplyError::PermissionDenied { display_id }
    } else if contains_seq(lower, "/dev/i2c"@) || contains_seq(lower, "no such file"@) {
        PhysicalDisplayApplyError::MissingI2cAccess { display_id }
    } else if contains_seq(lower, "unsupported"@) || contains_seq(lower, "vcp"@) {
        PhysicalDisplayApplyError::UnsupportedMonitor { display_id, message }
    } else {
        PhysicalDisplayApplyError::DdcOperation { display_id, message }
    }
}

fn contains_text(hay: &Vec<char>, needle: &str) -> (r: bool)
    ensures
        r == contains_seq(hay@, needle@),
{
    let n = chars_of(needle);
    contains_chars(hay, &n)
}

/// Classifies a DDC failure given the lower-cased form of its message.
pub fn classify_lowercased_apply_error(display_id: String, message: String, lowercase: &str) -> (r:
    PhysicalDisplayApplyError)
    ensures
        r == classify(display_id, message, lowercase@),
{
    let lower = chars_of(lowercase);
    if contains_text(&lower, "permission denied") {
        return PhysicalDisplayApplyError::PermissionDenied { display_id };
    }
    if contains_text(&lower, "/dev/i2c") || contains_text(&lower, "no such file") {
        return PhysicalDisplayApplyError::MissingI2cAccess { display_id };
    }
    if contains_text(&lower, "unsupported") || contains_text(&lower, "vcp") {
        return PhysicalDisplayApplyError::UnsupportedMonitor { display_id, message };
    }
    PhysicalDisplayApplyError::DdcOperation { display_id, message }
}

/// Classifies a DDC failure by its message, compared case-insensitively.
pub fn classify_apply_error(display_id: String, message: String) -> (r: PhysicalDisplayApplyError)
    ensures
        r == classify(display_id, message, lowercase(message@)),
{
    let lower = to_lowercase(message.as_str());
    classify_lowercased_apply_error(display_id, message, lower.as_str())
}

/// The lower-cased message reports an I/O error.
pub open spec fn io_error_text(lower: Seq<char>) -> bool {
    contains_seq(lower, "input/output error"@) || contains_seq(lower, "os error 5"@)
}

/// Tests a lower-cased message for an I/O error.
pub fn is_io_error_lowercased(lowercase: &str) -> (r: bool)
    ensures
        r == io_error_text(lowercase@),
{
    let lower = chars_of(lowercase);
    contains_text(&lower, "input/output error") || contains_text(&lower, "os error 5")
}

/// Tests a message for an I/O error, case-insensitively.
pub fn is_io_error(message: &str) -> (r: bool)
    ensures
        r == io_error_text(lowercase(message@)),
{
    let lower = to_lowercase(message);
    is_io_error_lowercased(lower.as_str())
}

fn join3(a: &str, b: &String, c: &str) -> (r: String)
    ensures
        r@ == a@ + b@ + c@,
{
    let mut v = chars_of(a);
    append_chars(&mut v, &chars_of(b.as_str()));
    append_chars(&mut v, &chars_of(c));
    string_of(&v)
}

fn join4(a: &str, b: &String, c: &str, d: &String) -> (r: String)
    ensures
        r@ == a@ + b@ + c@ + d@,
{
    let mut v = chars_of(a);
    append_chars(&mut v, &chars_of(b.as_str()));
    append_chars(&mut v, &chars_of(c));
    append_chars(&mut v, &chars_of(d.as_str()));
    string_of(&v)
}

/// The message of a query error.
pub open spec fn query_error_text(e: PhysicalDisplayQueryError) -> Seq<char> {
    match e {
        PhysicalDisplayQueryError::Enumerate => "failed to enumerate DDC displays"@,
        PhysicalDisplayQueryError::MissingI2cAccess { display_id } => "missing i2c access for display '"@
            + display_id@ + "'"@,
        PhysicalDisplayQueryError::PermissionDenied { display_id } => "insufficient permissions for display '"@
            + display_id@ + "'"@,
        PhysicalDisplayQueryError::UnsupportedMonitor { display_id, message } => "display '"@
            + display_id@ + "' does not expose brightness via VCP 0x10: "@ + message@,
        PhysicalDisplayQueryError::DdcOperation { display_id, message } => "ddc operation failed for display '"@
            + display_id@ + "': "@ + message@,
        PhysicalDisplayQueryError::BacklightQuery { message } => "failed to query Linux backlight devices: "@
            + message@,
    }
}

/// The message of an apply error.
pub open spec fn apply_error_text(e: PhysicalDisplayApplyError) -> Seq<char> {
    match e {
        PhysicalDisplayApplyError::Query { source } => query_error_text(source),
        PhysicalDisplayApplyError::UnsupportedMonitor { display_id, message } => "display '"@
            + display_id@ + "' does not expose brightness via VCP 0x10: "@ + message@,
        PhysicalDisplayApplyError::PermissionDenied { display_id } => "insufficient permissions for display '"@
            + display_id@ + "'"@,
        PhysicalDisplayApplyError::MissingI2cAccess { display_id } => "missing i2c access for display '"@
            + display_id@ + "'"@,
        PhysicalDisplayApplyError::DdcOperation { display_id, message } => "failed to set brightness for display '"@
            + display_id@ + "': "@ + message@,
        PhysicalDisplayApplyError::BacklightOperation { display_id, message } => "failed to set backlight brightness for display '"@
            + display_id@ + "': "@ + message@,
    }
}

impl PhysicalDisplayQueryError {
    /// The human-readable message of this error.
    pub fn to_string(&self) -> (r: String)
        ensures
            r@ == query_error_text(*self),
    {
        match self {
            PhysicalDisplayQueryError::Enumerate => "failed to enumerate DDC displays".to_owned(),
            PhysicalDisplayQueryError::MissingI2cAccess { display_id } => join3(
                "missing i2c access for display '",
                display_id,
                "'",
            ),
            PhysicalDisplayQueryError::PermissionDenied { display_id } => join3(
                "insufficient permissions for display '",
                display_id,
                "'",
            ),
            PhysicalDisplayQueryError::UnsupportedMonitor { display_id, message } => join4(
                "display '",
                display_id,
                "' does not expose brightness via VCP 0x10: ",
                message,
            ),
            PhysicalDisplayQueryError::DdcOperation { display_id, message } => join4(
                "ddc operation failed for display '",
                display_id,
                "': ",
                message,
            ),
            PhysicalDisplayQueryError::BacklightQuery { message } => {
                let mut v = chars_of("failed to query Linux backlight devices: ");
                append_chars(&mut v, &chars_of(message.as_str()));
                string_of(&v)
            },
        }
    }
}

impl PhysicalDisplayApplyError {
    /// The human-readable message of this error.
    pub fn to_string(&self) -> (r: String)
        ensures
            r@ == apply_error_text(*self),
    {
        match self {
            PhysicalDisplayApplyError::Query { source } => source.to_string(),
            PhysicalDisplayApplyError::UnsupportedMonitor { display_id, message } => join4(
                "display '",
                display_id,
                "' does not expose brightness via VCP 0x10: ",
                message,
            ),
            PhysicalDisplayApplyError::PermissionDenied { display_id } => join3(
                "insufficient permissions for display '",
                display_id,
                "'",
            ),
            PhysicalDisplayApplyError::MissingI2cAccess { display_id } => join3(
                "missing i2c access for display '",
                display_id,
                "'",
            ),
            PhysicalDisplayApplyError::DdcOperation { display_id, message } => join4(
                "failed to set brightness for display '",
                display_id,
                "': ",
                message,
            ),
            PhysicalDisplayApplyError::BacklightOperation { display_id, message } => join4(
                "failed to set backlight brightness for display '",
                display_id,
                "': ",
                message,
            ),
        }
    }
}

} // verus!

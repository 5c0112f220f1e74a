//! Backend-neutral display data for the GObject bindings, and the deterministic fake backend.
use vstd::prelude::*;

use crate::display::{display_id, Display, DisplayUpdate};
use crate::manager::{
    all_matches, display_apply_error_text, display_query_error_text, DisplayApplyError,
    DisplayManager, DisplayMatch, DisplayQueryError, DisplayUpdateResult, FailedDisplayUpdate,
};
use crate::types::{
    copy_opt_string, identifier_subset, DisplayIdentifier, LogicalDisplay,
    LogicalDisplayUpdateContent, PhysicalDisplay, PhysicalDisplayUpdateContent, Point,
};
use vstd::std_specs::convert::FromSpecImpl;

verus! {

/// Rotation of a logical display, as the bindings expose it.
#[derive(Debug, Default, Clone, Copy, PartialEq, Eq, Structural, PartialOrd, Ord, Hash)]
pub enum Orientation {
    #[default]
    Landscape,
    Portrait,
    LandscapeFlipped,
    PortraitFlipped,
}

/// The rotation in degrees, which is the value the bindings publish.
pub open spec fn orientation_degrees(o: Orientation) -> i32 {
    match o {
        Orientation::Landscape => 0,
        Orientation::Portrait => 90,
        Orientation::LandscapeFlipped => 180,
        Orientation::PortraitFlipped => 270,
    }
}

/// The bindings' orientation for a display orientation.
pub open spec fn orientation_of(o: crate::types::Orientation) -> Orientation {
    match o {
        crate::types::Orientation::Landscape => Orientation::Landscape,
        crate::types::Orientation::Portrait => Orientation::Portrait,
        crate::types::Orientation::LandscapeFlipped => Orientation::LandscapeFlipped,
        crate::types::Orientation::PortraitFlipped => Orientation::PortraitFlipped,
    }
}

/// The display orientation for a bindings orientation.
pub open spec fn display_orientation(o: Orientation) -> crate::types::Orientation {
    match o {
        Orientation::Landscape => crate::types::Orientation::Landscape,
        Orientation::Portrait => crate::types::Orientation::Portrait,
        Orientation::LandscapeFlipped => crate::types::Orientation::LandscapeFlipped,
        Orientation::PortraitFlipped => crate::types::Orientation::PortraitFlipped,
    }
}

impl Orientation {
    /// The rotation in degrees.
    pub fn degrees(self) -> (r: i32)
        ensures
            r == orientation_degrees(self),
    {
        match self {
            Orientation::Landscape => 0,
            Orientation::Portrait => 90,
            Orientation::LandscapeFlipped => 180,
            Orientation::PortraitFlipped => 270,
        }
    }

    /// The bindings' orientation for a display orientation.
    pub fn from_display(value: crate::types::Orientation) -> (r: Orientation)
        ensures
            r == orientation_of(value),
    {
        match value {
            crate::types::Orientation::Landscape => Orientation::Landscape,
            crate::types::Orientation::Portrait => Orientation::Portrait,
            crate::types::Orientation::LandscapeFlipped => Orientation::LandscapeFlipped,
            crate::types::Orientation::PortraitFlipped => Orientation::PortraitFlipped,
        }
    }

    /// The display orientation for this orientation.
    pub fn to_display(self) -> (r: crate::types::Orientation)
        ensures
            r == display_orientation(self),
    {
        match self {
            Orientation::Landscape => crate::types::Orientation::Landscape,
            Orientation::Portrait => crate::types::Orientation::Portrait,
            Orientation::LandscapeFlipped => crate::types::Orientation::LandscapeFlipped,
            Orientation::PortraitFlipped => crate::types::Orientation::PortraitFlipped,
        }
    }
}

/// The one error kind the bindings report.
#[derive(Debug, Clone, Copy, PartialEq, Eq, Structural)]
pub enum DisplaysAstalError {
    Failed,
}

/// An error reported to binding callers: its kind and message.
#[derive(Debug, PartialEq, Eq)]
pub struct BackendError {
    pub kind: DisplaysAstalError,
    pub message: String,
}

/// Builds an error of the given kind with the given message.
pub fn error_message(kind: DisplaysAstalError, message: &str) -> (r: BackendError)
    ensures
        r.kind == kind,
        r.message@ == message@,
{
    BackendError { kind, message: message.to_owned() }
}

/// Backend-neutral identifier shape used by the bindings.
#[derive(Debug, Default, PartialEq, Eq, PartialOrd, Ord, Hash)]
pub struct DisplayIdentifierData {
    pub name: Option<String>,
    pub serial_number: Option<String>,
}

impl View for DisplayIdentifierData {
    type V = (Option<Seq<char>>, Option<Seq<char>>);

    open spec fn view(&self) -> (Option<Seq<char>>, Option<Seq<char>>) {
        (self.name.deep_view(), self.serial_number.deep_view())
    }
}

impl Clone for DisplayIdentifierData {
    fn clone(&self) -> (r: Self)
        ensures
            r == *self,
    {
        DisplayIdentifierData {
            name: copy_opt_string(&self.name),
            serial_number: copy_opt_string(&self.serial_number),
        }
    }
}

impl DisplayIdentifierData {
    /// Returns `true` when every field set on this identifier is set on `other` with the same
    /// value.
    pub fn is_subset_of(&self, other: &Self) -> (r: bool)
        ensures
            r == identifier_subset(self@, other@),
    {
        let left = DisplayIdentifier::from(self.clone());
        let right = DisplayIdentifier::from(other.clone());
        left.is_subset(&right)
    }
}

impl From<DisplayIdentifierData> for DisplayIdentifier {
    fn from(value: DisplayIdentifierData) -> (r: Self) {
        DisplayIdentifier { name: value.name, serial_number: value.serial_number }
    }
}

impl FromSpecImpl<DisplayIdentifierData> for DisplayIdentifier {
    open spec fn obeys_from_spec() -> bool {
        true
    }

    open spec fn from_spec(value: DisplayIdentifierData) -> DisplayIdentifier {
        DisplayIdentifier { name: value.name, serial_number: value.serial_number }
    }
}

impl From<DisplayIdentifier> for DisplayIdentifierData {
    fn from(value: DisplayIdentifier) -> (r: Self) {
        DisplayIdentifierData { name: value.name, serial_number: value.serial_number }
    }
}

impl FromSpecImpl<DisplayIdentifier> for DisplayIdentifierData {
    open spec fn obeys_from_spec() -> bool {
        true
    }

    open spec fn from_spec(value: DisplayIdentifier) -> DisplayIdentifierData {
        DisplayIdentifierData { name: value.name, serial_number: value.serial_number }
    }
}


/// A point in the bindings.
#[derive(Debug, Clone, Copy, PartialEq, Eq, Structural, PartialOrd, Ord, Hash)]
pub struct PointData {
    pub x: i32,
    pub y: i32,
}

impl From<PointData> for Point {
    fn from(value: PointData) -> (r: Self) {
        Point { x: value.x, y: value.y }
    }
}

impl FromSpecImpl<PointData> for Point {
    open spec fn obeys_from_spec() -> bool {
        true
    }

    open spec fn from_spec(value: PointData) -> Point {
        Point { x: value.x, y: value.y }
    }
}

impl From<Point> for PointData {
    fn from(value: Point) -> (r: Self) {
        PointData { x: value.x, y: value.y }
    }
}

impl FromSpecImpl<Point> for PointData {
    open spec fn obeys_from_spec() -> bool {
        true
    }

    open spec fn from_spec(value: Point) -> PointData {
        PointData { x: value.x, y: value.y }
    }
}

/// The bindings' point for an optional display point.
pub open spec fn point_data(p: Option<Point>) -> Option<PointData> {
    match p {
        Some(q) => Some(PointData { x: q.x, y: q.y }),
        None => None,
    }
}

/// The display point for an optional bindings point.
pub open spec fn display_point(p: Option<PointData>) -> Option<Point> {
    match p {
        Some(q) => Some(Point { x: q.x, y: q.y }),
        None => None,
    }
}

fn to_point_data(p: Option<Point>) -> (r: Option<PointData>)
    ensures
        r == point_data(p),
{
    match p {
        Some(q) => Some(PointData::from(q)),
        None => None,
    }
}

fn to_display_point(p: Option<PointData>) -> (r: Option<Point>)
    ensures
        r == display_point(p),
{
    match p {
        Some(q) => Some(Point::from(q)),
        None => None,
    }
}

/// Logical display state in the bindings.
#[derive(Debug, Clone, Copy, PartialEq, Eq, PartialOrd, Ord, Hash)]
pub struct LogicalDisplayData {
    pub is_enabled: bool,
    pub orientation: Orientation,
    pub width: Option<u32>,
    pub height: Option<u32>,
    pub position: Option<PointData>,
}

/// The bindings' state of a logical display.
pub open spec fn logical_data(l: LogicalDisplay) -> LogicalDisplayData {
    LogicalDisplayData {
        is_enabled: l.state.is_enabled,
        orientation: orientation_of(l.state.orientation),
        width: l.state.width,
        height: l.state.height,
        position: point_data(l.state.position),
    }
}

impl LogicalDisplayData {
    /// The bindings' state of a logical display.
    pub fn from_display(value: &LogicalDisplay) -> (r: Self)
        ensures
            r == logical_data(*value),
    {
        LogicalDisplayData {
            is_enabled: value.state.is_enabled,
            orientation: Orientation::from_display(value.state.orientation),
            width: value.state.width,
            height: value.state.height,
            position: to_point_data(value.state.position),
        }
    }
}

impl From<LogicalDisplay> for LogicalDisplayData {
    fn from(value: LogicalDisplay) -> (r: Self) {
        LogicalDisplayData::from_display(&value)
    }
}

impl FromSpecImpl<LogicalDisplay> for LogicalDisplayData {
    open spec fn obeys_from_spec() -> bool {
        true
    }

    open spec fn from_spec(value: LogicalDisplay) -> LogicalDisplayData {
        logical_data(value)
    }
}

/// Physical display state in the bindings.
#[derive(Debug, Clone, Copy, PartialEq, Eq, PartialOrd, Ord, Hash)]
pub struct PhysicalDisplayData {
    pub brightness: Option<u32>,
    pub scale_factor: i32,
}

/// The bindings' state of a physical display.
pub open spec fn physical_data(p: PhysicalDisplay) -> PhysicalDisplayData {
    PhysicalDisplayData {
        brightness: Some(p.state.brightness.spec_value() as u32),
        scale_factor: p.state.scale_factor,
    }
}

impl PhysicalDisplayData {
    /// The bindings' state of a physical display.
    pub fn from_display(value: &PhysicalDisplay) -> (r: Self)
        ensures
            r == physical_data(*value),
    {
        PhysicalDisplayData {
            brightness: Some(value.state.brightness.value() as u32),
            scale_factor: value.state.scale_factor,
        }
    }
}

impl From<PhysicalDisplay> for PhysicalDisplayData {
    fn from(value: PhysicalDisplay) -> (r: Self) {
        PhysicalDisplayData::from_display(&value)
    }
}

impl FromSpecImpl<PhysicalDisplay> for PhysicalDisplayData {
    open spec fn obeys_from_spec() -> bool {
        true
    }

    open spec fn from_spec(value: PhysicalDisplay) -> PhysicalDisplayData {
        physical_data(value)
    }
}

/// A display in the bindings.
#[derive(Debug, PartialEq, Eq, PartialOrd, Ord, Hash)]
pub struct DisplayData {
    pub id: DisplayIdentifierData,
    pub logical: LogicalDisplayData,
    pub physical: Option<PhysicalDisplayData>,
}

impl Clone for DisplayData {
    fn clone(&self) -> (r: Self)
        ensures
            r == *self,
    {
        DisplayData { id: self.id.clone(), logical: self.logical, physical: self.physical }
    }
}

/// The bindings' view of a display.
pub open spec fn display_data(d: Display) -> DisplayData {
    DisplayData {
        id: DisplayIdentifierData {
            name: display_id(d).outer.name,
            serial_number: display_id(d).outer.serial_number,
        },
        logical: logical_data(d.logical),
        physical: match d.physical {
            Some(p) => Some(physical_data(p)),
            None => None,
        },
    }
}

impl DisplayData {
    /// The bindings' view of a display.
    pub fn from_display(value: &Display) -> (r: Self)
        ensures
            r == display_data(*value),
    {
        let id = DisplayIdentifierData::from(value.id().outer);
        let logical = LogicalDisplayData::from_display(&value.logical);
        let physical = match &value.physical {
            Some(p) => Some(PhysicalDisplayData::from_display(p)),
            None => None,
        };
        DisplayData { id, logical, physical }
    }
}

impl From<Display> for DisplayData {
    fn from(value: Display) -> (r: Self) {
        DisplayData::from_display(&value)
    }
}

impl FromSpecImpl<Display> for DisplayData {
    open spec fn obeys_from_spec() -> bool {
        true
    }

    open spec fn from_spec(value: Display) -> DisplayData {
        display_data(value)
    }
}

/// A display matched by a requested identifier, in the bindings.
#[derive(Debug, PartialEq, Eq, PartialOrd, Ord, Hash)]
pub struct DisplayMatchData {
    pub requested_id: DisplayIdentifierData,
    pub matched_id: DisplayIdentifierData,
    pub display: DisplayData,
}

/// A failed update of one display, in the bindings.
#[derive(Debug, PartialEq, Eq, PartialOrd, Ord, Hash)]
pub struct FailedDisplayUpdateData {
    pub matched_id: DisplayIdentifierData,
    pub message: String,
}

/// Requested logical changes, in the bindings.
#[derive(Debug, Clone, Copy, Default, PartialEq, Eq, PartialOrd, Ord, Hash)]
pub struct LogicalDisplayUpdateContentData {
    pub is_enabled: Option<bool>,
    pub orientation: Option<Orientation>,
    pub width: Option<u32>,
    pub height: Option<u32>,
    pub position: Option<PointData>,
}

/// The display content of bindings' logical changes (no pixel format change).
pub open spec fn logical_content(v: LogicalDisplayUpdateContentData) -> LogicalDisplayUpdateContent {
    LogicalDisplayUpdateContent {
        is_enabled: v.is_enabled,
        orientation: match v.orientation {
            Some(o) => Some(display_orientation(o)),
            None => None,
        },
        width: v.width,
        height: v.height,
        pixel_format: None,
        position: display_point(v.position),
    }
}

/// The bindings' content of logical changes (the pixel format is not carried).
pub open spec fn logical_content_data(v: LogicalDisplayUpdateContent) -> LogicalDisplayUpdateContentData {
    LogicalDisplayUpdateContentData {
        is_enabled: v.is_enabled,
        orientation: match v.orientation {
            Some(o) => Some(orientation_of(o)),
            None => None,
        },
        width: v.width,
        height: v.height,
        position: point_data(v.position),
    }
}

impl From<LogicalDisplayUpdateContentData> for LogicalDisplayUpdateContent {
    fn from(value: LogicalDisplayUpdateContentData) -> (r: Self) {
        LogicalDisplayUpdateContent {
            is_enabled: value.is_enabled,
            orientation: match value.orientation {
                Some(o) => Some(o.to_display()),
                None => None,
            },
            width: value.width,
            height: value.height,
            pixel_format: None,
            position: to_display_point(value.position),
        }
    }
}

impl FromSpecImpl<LogicalDisplayUpdateContentData> for LogicalDisplayUpdateContent {
    open spec fn obeys_from_spec() -> bool {
        true
    }

    open spec fn from_spec(value: LogicalDisplayUpdateContentData) -> LogicalDisplayUpdateContent {
        logical_content(value)
    }
}

impl From<LogicalDisplayUpdateContent> for LogicalDisplayUpdateContentData {
    fn from(value: LogicalDisplayUpdateContent) -> (r: Self) {
        LogicalDisplayUpdateContentData {
            is_enabled: value.is_enabled,
            orientation: match value.orientation {
                Some(o) => Some(Orientation::from_display(o)),
                None => None,
            },
            width: value.width,
            height: value.height,
            position: to_point_data(value.position),
        }
    }
}

impl FromSpecImpl<LogicalDisplayUpdateContent> for LogicalDisplayUpdateContentData {
    open spec fn obeys_from_spec() -> bool {
        true
    }

    open spec fn from_spec(value: LogicalDisplayUpdateContent) -> LogicalDisplayUpdateContentData {
        logical_content_data(value)
    }
}

/// Requested physical changes, in the bindings.
#[derive(Debug, Clone, Copy, Default, PartialEq, Eq, PartialOrd, Ord, Hash)]
pub struct PhysicalDisplayUpdateContentData {
    pub brightness: Option<u32>,
}

impl From<PhysicalDisplayUpdateContentData> for PhysicalDisplayUpdateContent {
    fn from(value: PhysicalDisplayUpdateContentData) -> (r: Self) {
        PhysicalDisplayUpdateContent { brightness: value.brightness }
    }
}

impl FromSpecImpl<PhysicalDisplayUpdateContentData> for PhysicalDisplayUpdateContent {
    open spec fn obeys_from_spec() -> bool {
        true
    }

    open spec fn from_spec(value: PhysicalDisplayUpdateContentData) -> PhysicalDisplayUpdateContent {
        PhysicalDisplayUpdateContent { brightness: value.brightness }
    }
}

impl From<PhysicalDisplayUpdateContent> for PhysicalDisplayUpdateContentData {
    fn from(value: PhysicalDisplayUpdateContent) -> (r: Self) {
        PhysicalDisplayUpdateContentData { brightness: value.brightness }
    }
}

impl FromSpecImpl<PhysicalDisplayUpdateContent> for PhysicalDisplayUpdateContentData {
    open spec fn obeys_from_spec() -> bool {
        true
    }

    open spec fn from_spec(value: PhysicalDisplayUpdateContent) -> PhysicalDisplayUpdateContentData {
        PhysicalDisplayUpdateContentData { brightness: value.brightness }
    }
}

/// A requested display update, in the bindings.
#[derive(Debug, Default, PartialEq, Eq, PartialOrd, Ord, Hash)]
pub struct DisplayUpdateData {
    pub id: DisplayIdentifierData,
    pub logical: Option<LogicalDisplayUpdateContentData>,
    pub physical: Option<PhysicalDisplayUpdateContentData>,
}

impl Clone for DisplayUpdateData {
    fn clone(&self) -> (r: Self)
        ensures
            r == *self,
    {
        DisplayUpdateData { id: self.id.clone(), logical: self.logical, physical: self.physical }
    }
}

/// The display update for a bindings' update.
pub open spec fn display_update_of(v: DisplayUpdateData) -> DisplayUpdate {
    DisplayUpdate {
        id: DisplayIdentifier { name: v.id.name, serial_number: v.id.serial_number },
        logical: match v.logical {
            Some(c) => Some(logical_content(c)),
            None => None,
        },
        physical: match v.physical {
            Some(c) => Some(PhysicalDisplayUpdateContent { brightness: c.brightness }),
            None => None,
        },
    }
}

/// The bindings' update for a display update.
pub open spec fn update_data_of(v: DisplayUpdate) -> DisplayUpdateData {
    DisplayUpdateData {
        id: DisplayIdentifierData { name: v.id.name, serial_number: v.id.serial_number },
        logical: match v.logical {
            Some(c) => Some(logical_content_data(c)),
            None => None,
        },
        physical: match v.physical {
            Some(c) => Some(PhysicalDisplayUpdateContentData { brightness: c.brightness }),
            None => None,
        },
    }
}

impl From<DisplayUpdateData> for DisplayUpdate {
    fn from(value: DisplayUpdateData) -> (r: Self) {
        DisplayUpdate {
            id: DisplayIdentifier::from(value.id),
            logical: match value.logical {
                Some(c) => Some(LogicalDisplayUpdateContent::from(c)),
                None => None,
            },
            physical: match value.physical {
                Some(c) => Some(PhysicalDisplayUpdateContent::from(c)),
                None => None,
            },
        }
    }
}

impl FromSpecImpl<DisplayUpdateData> for DisplayUpdate {
    open spec fn obeys_from_spec() -> bool {
        true
    }

    open spec fn from_spec(value: DisplayUpdateData) -> DisplayUpdate {
        display_update_of(value)
    }
}

impl From<DisplayUpdate> for DisplayUpdateData {
    fn from(value: DisplayUpdate) -> (r: Self) {
        DisplayUpdateData {
            id: DisplayIdentifierData::from(value.id),
            logical: match value.logical {
                Some(c) => Some(LogicalDisplayUpdateContentData::from(c)),
                None => None,
            },
            physical: match value.physical {
                Some(c) => Some(PhysicalDisplayUpdateContentData::from(c)),
                None => None,
            },
        }
    }
}

impl FromSpecImpl<DisplayUpdate> for DisplayUpdateData {
    open spec fn obeys_from_spec() -> bool {
        true
    }

    open spec fn from_spec(value: DisplayUpdate) -> DisplayUpdateData {
        update_data_of(value)
    }
}

/// The result of one requested update, in the bindings.
#[derive(Debug, PartialEq, Eq, PartialOrd, Ord, Hash)]
pub struct DisplayUpdateResultData {
    pub requested_update: DisplayUpdateData,
    pub applied: Vec<DisplayIdentifierData>,
    pub failed: Vec<FailedDisplayUpdateData>,
}

/// The identifiers held by a sequence of binding identifiers.
pub open spec fn data_id_views(v: Seq<DisplayIdentifierData>) -> Seq<(Option<Seq<char>>, Option<Seq<char>>)> {
    v.map_values(|i: DisplayIdentifierData| i@)
}

/// The bindings' form of an identifier.
pub open spec fn identifier_data(id: DisplayIdentifier) -> DisplayIdentifierData {
    DisplayIdentifierData { name: id.name, serial_number: id.serial_number }
}

/// The identifier a binding identifier stands for.
pub open spec fn identifier_of_data(id: DisplayIdentifierData) -> DisplayIdentifier {
    DisplayIdentifier { name: id.name, serial_number: id.serial_number }
}

/// The bindings' form of a display match.
pub open spec fn match_data(m: DisplayMatch) -> DisplayMatchData {
    DisplayMatchData {
        requested_id: identifier_data(m.requested_id),
        matched_id: identifier_data(m.matched_id),
        display: display_data(m.display),
    }
}

/// `r` is the bindings' form of the update result `v`.
pub open spec fn is_result_data(r: DisplayUpdateResultData, v: DisplayUpdateResult) -> bool {
    &&& r.requested_update == update_data_of(v.requested_update)
    &&& data_id_views(r.applied@) == crate::manager::id_views(v.applied@)
    &&& r.failed@.len() == v.failed@.len()
    &&& forall|i: int|
        0 <= i < r.failed@.len() ==> (#[trigger] r.failed@[i]).matched_id@ == v.failed@[i].matched_id@
            && r.failed@[i].message@ == v.failed@[i].message@
}

impl DisplayMatchData {
    /// The bindings' form of a display match.
    pub fn from_match(value: DisplayMatch) -> (r: Self)
        ensures
            r == match_data(value),
    {
        DisplayMatchData {
            requested_id: DisplayIdentifierData::from(value.requested_id),
            matched_id: DisplayIdentifierData::from(value.matched_id),
            display: DisplayData::from_display(&value.display),
        }
    }
}

impl DisplayUpdateResultData {
    /// The bindings' form of an update result.
    pub fn from_result(value: &DisplayUpdateResult) -> (r: Self)
        ensures
            is_result_data(r, *value),
    {
        let mut applied: Vec<DisplayIdentifierData> = Vec::new();
        let n = value.applied.len();
        for k in 0..n
            invariant
                n == value.applied@.len(),
                data_id_views(applied@) == crate::manager::id_views(value.applied@.take(k as int)),
        {
            let ghost before = applied@;
            let item = DisplayIdentifierData::from(value.applied[k].clone());
            applied.push(item);
            assert(value.applied@.take(k + 1) == value.applied@.take(k as int).push(value.applied@[k as int]));
            assert(data_id_views(applied@) == data_id_views(before).push(item@));
            assert(crate::manager::id_views(value.applied@.take(k + 1)) == crate::manager::id_views(
                value.applied@.take(k as int),
            ).push(value.applied@[k as int]@));
        }
        assert(value.applied@.take(n as int) == value.applied@);
        let mut failed: Vec<FailedDisplayUpdateData> = Vec::new();
        let m = value.failed.len();
        for k in 0..m
            invariant
                m == value.failed@.len(),
                failed@.len() == k,
                forall|i: int|
                    0 <= i < k ==> (#[trigger] failed@[i]).matched_id@ == value.failed@[i].matched_id@
                        && failed@[i].message@ == value.failed@[i].message@,
        {
            let f: &FailedDisplayUpdate = &value.failed[k];
            failed.push(
                FailedDisplayUpdateData {
                    matched_id: DisplayIdentifierData::from(f.matched_id.clone()),
                    message: f.message.clone(),
                },
            );
        }
        DisplayUpdateResultData {
            requested_update: DisplayUpdateData::from(value.requested_update.clone()),
            applied,
            failed,
        }
    }
}


// ---------------------------------------------------------------------------
// Backends
// ---------------------------------------------------------------------------
/// What the bindings need from a display backend.
pub trait Backend {
    /// All displays.
    fn query(&self) -> Result<Vec<DisplayData>, BackendError>;

    /// The displays each requested identifier selects.
    fn get(&self, ids: Vec<DisplayIdentifierData>) -> Result<Vec<DisplayMatchData>, BackendError>;

    /// Applies (or, when `validate`, only checks) the requested updates.
    fn apply(&self, updates: Vec<DisplayUpdateData>, validate: bool) -> Result<
        Vec<DisplayUpdateResultData>,
        BackendError,
    >;
}

/// Deterministic backend with three made-up displays, for tests and development.
pub struct FakeBackend;

/// The identifier text of the three fake displays.
pub open spec fn fake_ids() -> Seq<(Option<Seq<char>>, Option<Seq<char>>)> {
    seq![
        (Some("Dell U2720Q"@), Some("DELLA1"@)),
        (Some("LG UltraFine"@), Some("LGFINE2"@)),
        (Some("Virtual Display"@), None),
    ]
}

/// The logical state of the three fake displays.
pub open spec fn fake_logical() -> Seq<LogicalDisplayData> {
    seq![
        LogicalDisplayData {
            is_enabled: true,
            orientation: Orientation::Landscape,
            width: Some(3840),
            height: Some(2160),
            position: Some(PointData { x: 0, y: 0 }),
        },
        LogicalDisplayData {
            is_enabled: true,
            orientation: Orientation::Portrait,
            width: Some(1440),
            height: Some(2560),
            position: Some(PointData { x: 3840, y: 0 }),
        },
        LogicalDisplayData {
            is_enabled: false,
            orientation: Orientation::LandscapeFlipped,
            width: Some(1920),
            height: Some(1080),
            position: Some(PointData { x: -1920i32, y: 0 }),
        },
    ]
}

/// The physical state of the three fake displays.
pub open spec fn fake_physical() -> Seq<Option<PhysicalDisplayData>> {
    seq![
        Some(PhysicalDisplayData { brightness: Some(62), scale_factor: 150 }),
        Some(PhysicalDisplayData { brightness: Some(47), scale_factor: 100 }),
        None,
    ]
}

/// The three fake displays.
pub fn fake_displays() -> (r: Vec<DisplayData>)
    ensures
        r@.len() == 3,
        forall|i: int|
            0 <= i < 3 ==> (#[trigger] r@[i]).id@ == fake_ids()[i] && r@[i].logical == fake_logical()[i]
                && r@[i].physical == fake_physical()[i],
{
    let mut r: Vec<DisplayData> = Vec::new();
    r.push(
        DisplayData {
            id: DisplayIdentifierData {
                name: Some("Dell U2720Q".to_owned()),
                serial_number: Some("DELLA1".to_owned()),
            },
            logical: LogicalDisplayData {
                is_enabled: true,
                orientation: Orientation::Landscape,
                width: Some(3840),
                height: Some(2160),
                position: Some(PointData { x: 0, y: 0 }),
            },
            physical: Some(PhysicalDisplayData { brightness: Some(62), scale_factor: 150 }),
        },
    );
    r.push(
        DisplayData {
            id: DisplayIdentifierData {
                name: Some("LG UltraFine".to_owned()),
                serial_number: Some("LGFINE2".to_owned()),
            },
            logical: LogicalDisplayData {
                is_enabled: true,
                orientation: Orientation::Portrait,
                width: Some(1440),
                height: Some(2560),
                position: Some(PointData { x: 3840, y: 0 }),
            },
            physical: Some(PhysicalDisplayData { brightness: Some(47), scale_factor: 100 }),
        },
    );
    r.push(
        DisplayData {
            id: DisplayIdentifierData {
                name: Some("Virtual Display".to_owned()),
                serial_number: None,
            },
            logical: LogicalDisplayData {
                is_enabled: false,
                orientation: Orientation::LandscapeFlipped,
                width: Some(1920),
                height: Some(1080),
                position: Some(PointData { x: -1920, y: 0 }),
            },
            physical: None,
        },
    );
    r
}

/// A display's identifier text and state.
pub open spec fn data_view(d: DisplayData) -> (
    (Option<Seq<char>>, Option<Seq<char>>),
    LogicalDisplayData,
    Option<PhysicalDisplayData>,
) {
    (d.id@, d.logical, d.physical)
}

/// The three fake displays' identifier text and state.
pub open spec fn fake_views() -> Seq<
    ((Option<Seq<char>>, Option<Seq<char>>), LogicalDisplayData, Option<PhysicalDisplayData>),
> {
    Seq::new(3, |i: int| (fake_ids()[i], fake_logical()[i], fake_physical()[i]))
}

/// The fake displays an identifier selects, in order.
pub open spec fn fake_selected(id: (Option<Seq<char>>, Option<Seq<char>>)) -> Seq<
    ((Option<Seq<char>>, Option<Seq<char>>), LogicalDisplayData, Option<PhysicalDisplayData>),
> {
    fake_views().filter(
        |d: ((Option<Seq<char>>, Option<Seq<char>>), LogicalDisplayData, Option<PhysicalDisplayData>)|
            identifier_subset(id, d.0),
    )
}

/// A match's requested identifier, matched identifier and display.
pub open spec fn match_view(m: DisplayMatchData) -> (
    (Option<Seq<char>>, Option<Seq<char>>),
    (Option<Seq<char>>, Option<Seq<char>>),
    ((Option<Seq<char>>, Option<Seq<char>>), LogicalDisplayData, Option<PhysicalDisplayData>),
) {
    (m.requested_id@, m.matched_id@, data_view(m.display))
}

/// The matches the fake backend reports for one requested identifier.
pub open spec fn fake_matches_for(id: (Option<Seq<char>>, Option<Seq<char>>)) -> Seq<
    (
        (Option<Seq<char>>, Option<Seq<char>>),
        (Option<Seq<char>>, Option<Seq<char>>),
        ((Option<Seq<char>>, Option<Seq<char>>), LogicalDisplayData, Option<PhysicalDisplayData>),
    ),
> {
    fake_selected(id).map_values(
        |d: ((Option<Seq<char>>, Option<Seq<char>>), LogicalDisplayData, Option<PhysicalDisplayData>)|
            (id, d.0, d),
    )
}

fn select_fake(ds: &Vec<DisplayData>, id: &DisplayIdentifierData) -> (r: Vec<DisplayData>)
    requires
        ds@.map_values(|d: DisplayData| data_view(d)) == fake_views(),
    ensures
        r@.map_values(|d: DisplayData| data_view(d)) == fake_selected(id@),
{
    let ghost pred = |d: ((Option<Seq<char>>, Option<Seq<char>>), LogicalDisplayData, Option<PhysicalDisplayData>)|
        identifier_subset(id@, d.0);
    let ghost views = fake_views();
    let mut r: Vec<DisplayData> = Vec::new();
    let n = ds.len();
    for k in 0..n
        invariant
            n == ds@.len(),
            ds@.map_values(|d: DisplayData| data_view(d)) == views,
            views == fake_views(),
            pred == (|d: ((Option<Seq<char>>, Option<Seq<char>>), LogicalDisplayData, Option<PhysicalDisplayData>)|
                identifier_subset(id@, d.0)),
            r@.map_values(|d: DisplayData| data_view(d)) == views.take(k as int).filter(pred),
    {
        proof {
            assert(views.take(k + 1) == views.take(k as int).push(views[k as int]));
            views.take(k as int).lemma_filter_push(views[k as int], pred);
            assert(views[k as int] == data_view(ds@[k as int]));
            assert(pred(views[k as int]) == identifier_subset(id@, ds@[k as int].id@));
        }
        let ghost before = r@;
        if id.is_subset_of(&ds[k].id) {
            r.push(ds[k].clone());
            assert(r@.map_values(|d: DisplayData| data_view(d)) == before.map_values(
                |d: DisplayData| data_view(d),
            ).push(data_view(ds@[k as int])));
        }
    }
    assert(views.take(n as int) == views);
    r
}

impl FakeBackend {
    /// The fake displays each requested identifier selects, grouped by request in order.
    pub fn get_matches(ids: Vec<DisplayIdentifierData>) -> (r: Vec<DisplayMatchData>)
        ensures
            r@.map_values(|m: DisplayMatchData| match_view(m)) == ids@.map_values(
                |i: DisplayIdentifierData| i@,
            ).flat_map(|id: (Option<Seq<char>>, Option<Seq<char>>)| fake_matches_for(id)),
    {
        let displays = fake_displays();
        assert(displays@.map_values(|d: DisplayData| data_view(d)) == fake_views());
        let ghost idv = ids@.map_values(|i: DisplayIdentifierData| i@);
        let ghost f = |id: (Option<Seq<char>>, Option<Seq<char>>)| fake_matches_for(id);
        let mut r: Vec<DisplayMatchData> = Vec::new();
        let n = ids.len();
        for k in 0..n
            invariant
                n == ids@.len(),
                idv == ids@.map_values(|i: DisplayIdentifierData| i@),
                f == (|id: (Option<Seq<char>>, Option<Seq<char>>)| fake_matches_for(id)),
                displays@.map_values(|d: DisplayData| data_view(d)) == fake_views(),
                r@.map_values(|m: DisplayMatchData| match_view(m)) == idv.take(k as int).flat_map(f),
        {
            let found = select_fake(&displays, &ids[k]);
            let ghost fv = found@.map_values(|d: DisplayData| data_view(d));
            let ghost before = r@.map_values(|m: DisplayMatchData| match_view(m));
            let ghost want = fake_matches_for(ids@[k as int]@);
            let m = found.len();
            for j in 0..m
                invariant
                    m == found@.len(),
                    k < n,
                    n == ids@.len(),
                    fv == found@.map_values(|d: DisplayData| data_view(d)),
                    fv == fake_selected(ids@[k as int]@),
                    want == fake_matches_for(ids@[k as int]@),
                    r@.map_values(|m: DisplayMatchData| match_view(m)) == before + want.take(j as int),
            {
                let ghost rb = r@;
                let item = DisplayMatchData {
                    requested_id: ids[k].clone(),
                    matched_id: found[j].id.clone(),
                    display: found[j].clone(),
                };
                r.push(item);
                assert(fv[j as int] == data_view(found@[j as int]));
                assert(want.take(j + 1) == want.take(j as int).push(want[j as int]));
                assert(r@.map_values(|m: DisplayMatchData| match_view(m)) == rb.map_values(
                    |m: DisplayMatchData| match_view(m),
                ).push(match_view(item)));
            }
            assert(want.take(m as int) == want);
            proof {
                assert(idv[k as int] == ids@[k as int]@);
                assert(f(idv[k as int]) == want);
                idv.lemma_flat_map_take_append(f, k as int);
                assert(r@.map_values(|m: DisplayMatchData| match_view(m)) == idv.take(k as int).flat_map(f) + f(idv[k as int]));
            }
        }
        assert(idv.take(n as int) == idv);
        r
    }

    /// One result per requested update: applied to every fake display it selects, never failing.
    pub fn apply_updates(updates: Vec<DisplayUpdateData>) -> (r: Vec<DisplayUpdateResultData>)
        ensures
            r@.len() == updates@.len(),
            forall|k: int|
                0 <= k < r@.len() ==> (#[trigger] r@[k]).requested_update == updates@[k] && data_id_views(
                    r@[k].applied@,
                ) == fake_selected(updates@[k].id@).map_values(
                    |d: ((Option<Seq<char>>, Option<Seq<char>>), LogicalDisplayData, Option<PhysicalDisplayData>)|
                        d.0,
                ) && r@[k].failed@.len() == 0,
    {
        let displays = fake_displays();
        assert(displays@.map_values(|d: DisplayData| data_view(d)) == fake_views());
        let mut r: Vec<DisplayUpdateResultData> = Vec::new();
        let n = updates.len();
        for k in 0..n
            invariant
                n == updates@.len(),
                displays@.map_values(|d: DisplayData| data_view(d)) == fake_views(),
                r@.len() == k,
                forall|i: int|
                    0 <= i < k ==> (#[trigger] r@[i]).requested_update == updates@[i] && data_id_views(
                        r@[i].applied@,
                    ) == fake_selected(updates@[i].id@).map_values(
                        |d: ((Option<Seq<char>>, Option<Seq<char>>), LogicalDisplayData, Option<PhysicalDisplayData>)|
                            d.0,
                    ) && r@[i].failed@.len() == 0,
        {
            let found = select_fake(&displays, &updates[k].id);
            let ghost fv = found@.map_values(|d: DisplayData| data_view(d));
            let mut applied: Vec<DisplayIdentifierData> = Vec::new();
            let m = found.len();
            for j in 0..m
                invariant
                    m == found@.len(),
                    fv == found@.map_values(|d: DisplayData| data_view(d)),
                    data_id_views(applied@) == fv.take(j as int).map_values(
                        |d: ((Option<Seq<char>>, Option<Seq<char>>), LogicalDisplayData, Option<PhysicalDisplayData>)|
                            d.0,
                    ),
            {
                let ghost before = applied@;
                let item = found[j].id.clone();
                applied.push(item);
                assert(fv[j as int] == data_view(found@[j as int]));
                assert(fv.take(j + 1) == fv.take(j as int).push(fv[j as int]));
                assert(data_id_views(applied@) == data_id_views(before).push(item@));
            }
            assert(fv.take(m as int) == fv);
            r.push(
                DisplayUpdateResultData {
                    requested_update: updates[k].clone(),
                    applied,
                    failed: Vec::new(),
                },
            );
        }
        r
    }
}

impl Backend for FakeBackend {
    /// The three fake displays; never fails.
    fn query(&self) -> (r: Result<Vec<DisplayData>, BackendError>)
        ensures
            r matches Ok(v) && v@.len() == 3 && forall|i: int|
                0 <= i < 3 ==> (#[trigger] v@[i]).id@ == fake_ids()[i] && v@[i].logical
                    == fake_logical()[i] && v@[i].physical == fake_physical()[i],
    {
        Ok(fake_displays())
    }

    /// The fake displays each requested identifier selects, grouped by request in order;
    /// never fails.
    fn get(&self, ids: Vec<DisplayIdentifierData>) -> (r: Result<Vec<DisplayMatchData>, BackendError>)
        ensures
            r matches Ok(v) && v@.map_values(|m: DisplayMatchData| match_view(m)) == ids@.map_values(
                |i: DisplayIdentifierData| i@,
            ).flat_map(|id: (Option<Seq<char>>, Option<Seq<char>>)| fake_matches_for(id)),
    {
        Ok(FakeBackend::get_matches(ids))
    }

    /// One result per requested update, applied to every fake display it selects and never
    /// failing, whether or not `validate` is set; never fails.
    fn apply(&self, updates: Vec<DisplayUpdateData>, validate: bool) -> (r: Result<
        Vec<DisplayUpdateResultData>,
        BackendError,
    >)
        ensures
            r matches Ok(v) && v@.len() == updates@.len() && forall|k: int|
                0 <= k < v@.len() ==> (#[trigger] v@[k]).requested_update == updates@[k]
                    && data_id_views(v@[k].applied@) == fake_selected(updates@[k].id@).map_values(
                    |d: ((Option<Seq<char>>, Option<Seq<char>>), LogicalDisplayData, Option<PhysicalDisplayData>)|
                        d.0,
                ) && v@[k].failed@.len() == 0,
    {
        Ok(FakeBackend::apply_updates(updates))
    }
}

/// The backend over the real display managers: turns what they report into the bindings'
/// form, and their errors into failures carrying the error's message.
pub struct RealBackend;

impl RealBackend {
    /// The bindings' form of a display query.
    pub fn query(result: Result<Vec<Display>, DisplayQueryError>) -> (r: Result<
        Vec<DisplayData>,
        BackendError,
    >)
        ensures
            match result {
                Ok(ds) => r matches Ok(v) && v@ == ds@.map_values(|d: Display| display_data(d)),
                Err(e) => r matches Err(b) && b.kind == DisplaysAstalError::Failed && b.message@
                    == display_query_error_text(e),
            },
    {
        match result {
            Ok(ds) => {
                let mut v: Vec<DisplayData> = Vec::new();
                let n = ds.len();
                for k in 0..n
                    invariant
                        n == ds@.len(),
                        v@ == ds@.take(k as int).map_values(|d: Display| display_data(d)),
                {
                    v.push(DisplayData::from_display(&ds[k]));
                    assert(ds@.take(k + 1) == ds@.take(k as int).push(ds@[k as int]));
                }
                assert(ds@.take(n as int) == ds@);
                Ok(v)
            },
            Err(e) => Err(map_error(e.to_string())),
        }
    }

    /// The displays each requested identifier selects among the queried displays, grouped by
    /// request in order, in the bindings' form.
    pub fn get(query: Result<Vec<Display>, DisplayQueryError>, ids: Vec<DisplayIdentifierData>) -> (r:
        Result<Vec<DisplayMatchData>, BackendError>)
        ensures
            match query {
                Ok(ds) => r matches Ok(v) && v@ == all_matches(
                    ds@,
                    ids@.map_values(|i: DisplayIdentifierData| identifier_of_data(i)),
                ).map_values(|m: DisplayMatch| match_data(m)),
                Err(e) => r matches Err(b) && b.kind == DisplaysAstalError::Failed && b.message@
                    == display_query_error_text(e),
            },
    {
        match query {
            Ok(ds) => {
                let mut wanted: Vec<DisplayIdentifier> = Vec::new();
                let n = ids.len();
                for k in 0..n
                    invariant
                        n == ids@.len(),
                        wanted@ == ids@.take(k as int).map_values(
                            |i: DisplayIdentifierData| identifier_of_data(i),
                        ),
                {
                    wanted.push(DisplayIdentifier::from(ids[k].clone()));
                    assert(ids@.take(k + 1) == ids@.take(k as int).push(ids@[k as int]));
                }
                assert(ids@.take(n as int) == ids@);
                let found = DisplayManager::get(&ds, wanted);
                let mut v: Vec<DisplayMatchData> = Vec::new();
                let m = found.len();
                for j in 0..m
                    invariant
                        m == found@.len(),
                        v@ == found@.take(j as int).map_values(|x: DisplayMatch| match_data(x)),
                {
                    let item = &found[j];
                    let x = DisplayMatch {
                        requested_id: item.requested_id.clone(),
                        matched_id: item.matched_id.clone(),
                        display: item.display.clone(),
                    };
                    v.push(DisplayMatchData::from_match(x));
                    assert(found@.take(j + 1) == found@.take(j as int).push(found@[j as int]));
                }
                assert(found@.take(m as int) == found@);
                Ok(v)
            },
            Err(e) => Err(map_error(e.to_string())),
        }
    }

    /// The bindings' form of the results of applying updates.
    pub fn apply(result: Result<Vec<DisplayUpdateResult>, DisplayApplyError>) -> (r: Result<
        Vec<DisplayUpdateResultData>,
        BackendError,
    >)
        ensures
            match result {
                Ok(rs) => r matches Ok(v) && v@.len() == rs@.len() && forall|i: int|
                    0 <= i < v@.len() ==> is_result_data(#[trigger] v@[i], rs@[i]),
                Err(e) => r matches Err(b) && b.kind == DisplaysAstalError::Failed && b.message@
                    == display_apply_error_text(e),
            },
    {
        match result {
            Ok(rs) => {
                let mut v: Vec<DisplayUpdateResultData> = Vec::new();
                let n = rs.len();
                for k in 0..n
                    invariant
                        n == rs@.len(),
                        v@.len() == k,
                        forall|i: int| 0 <= i < k ==> is_result_data(#[trigger] v@[i], rs@[i]),
                {
                    v.push(DisplayUpdateResultData::from_result(&rs[k]));
                }
                Ok(v)
            },
            Err(e) => Err(map_error(e.to_string())),
        }
    }
}

/// The failure the bindings report for a display manager error with the given message.
fn map_error(message: String) -> (r: BackendError)
    ensures
        r.kind == DisplaysAstalError::Failed,
        r.message@ == message@,
{
    error_message(DisplaysAstalError::Failed, message.as_str())
}

/// Converting a binding update to a display update and back gives the binding update.
pub proof fn law_update_data_round_trip(v: DisplayUpdateData)
    ensures
        update_data_of(display_update_of(v)) == v,
{
    match v.logical {
        Some(c) => {
            match c.orientation {
                Some(o) => assert(orientation_of(display_orientation(o)) == o),
                None => {},
            }
        },
        None => {},
    }
}

/// Converting a display update to a binding update and back gives the display update,
/// unless it asks for a pixel format, which the bindings do not carry.
pub proof fn law_display_update_round_trip(u: DisplayUpdate)
    requires
        u.logical matches Some(c) ==> c.pixel_format is None,
    ensures
        display_update_of(update_data_of(u)) == u,
{
    match u.logical {
        Some(c) => {
            match c.orientation {
                Some(o) => assert(display_orientation(orientation_of(o)) == o),
                None => {},
            }
        },
        None => {},
    }
}

/// The bindings' orientation carries the same rotation in both directions.
pub proof fn law_orientation_round_trip(o: crate::types::Orientation, b: Orientation)
    ensures
        display_orientation(orientation_of(o)) == o,
        orientation_of(display_orientation(b)) == b,
{
}

} // verus!

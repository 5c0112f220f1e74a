//! Plain display data shared by the logical and physical backends.
use vstd::prelude::*;

verus! {

/// A position in the virtual desktop, in pixels.
#[derive(Debug, Clone, Copy, PartialEq, Eq, Structural, PartialOrd, Ord, Hash, Default)]
pub struct Point {
    pub x: i32,
    pub y: i32,
}

/// Rotation of a logical display.
#[derive(Debug, Clone, Copy, PartialEq, Eq, Structural, PartialOrd, Ord, Hash, Default)]
pub enum Orientation {
    #[default]
    Landscape,
    Portrait,
    LandscapeFlipped,
    PortraitFlipped,
}

/// Pixel format of a logical display's source mode.
#[derive(Debug, Clone, Copy, PartialEq, Eq, Structural, PartialOrd, Ord, Hash)]
pub enum PixelFormat {
    Bpp8,
    Bpp16,
    Bpp24,
    Bpp32,
    NonGdi,
}

/// A brightness percentage.
#[derive(Debug, Clone, Copy, PartialEq, Eq, PartialOrd, Ord, Hash, Default)]
pub struct Brightness {
    value: u8,
}

impl Brightness {
    /// Wraps a brightness percentage.
    pub fn new(value: u8) -> (r: Brightness)
        ensures
            r.spec_value() == value,
    {
        Brightness { value }
    }

    pub closed spec fn spec_value(&self) -> u8 {
        self.value
    }

    /// Returns the wrapped brightness percentage.
    #[verifier::when_used_as_spec(spec_value)]
    pub fn value(&self) -> (r: u8)
        ensures
            r == self.spec_value(),
    {
        self.value
    }
}

/// A user-facing identifier used to match one or more displays.
///
/// Matching is subset-based: any field set on this identifier must match the corresponding
/// field on the target display.
#[derive(Debug, Default, PartialEq, Eq, PartialOrd, Ord, Hash)]
pub struct DisplayIdentifier {
    /// Human-readable display name when available.
    pub name: Option<String>,
    /// Physical serial number when available.
    pub serial_number: Option<String>,
}

impl View for DisplayIdentifier {
    type V = (Option<Seq<char>>, Option<Seq<char>>);

    open spec fn view(&self) -> (Option<Seq<char>>, Option<Seq<char>>) {
        (self.name.deep_view(), self.serial_number.deep_view())
    }
}

/// A requested field matches the target's field: it is unset, or the target has the same value.
pub open spec fn field_compatible(mine: Option<Seq<char>>, theirs: Option<Seq<char>>) -> bool {
    match mine {
        Some(a) => theirs == Some(a),
        None => true,
    }
}

/// `requested` is a subset of `target`: every field set on `requested` is set on `target` with
/// the same value.
pub open spec fn identifier_subset(
    requested: (Option<Seq<char>>, Option<Seq<char>>),
    target: (Option<Seq<char>>, Option<Seq<char>>),
) -> bool {
    field_compatible(requested.0, target.0) && field_compatible(requested.1, target.1)
}

/// Copies an optional string.
pub fn copy_opt_string(o: &Option<String>) -> (r: Option<String>)
    ensures
        r == *o,
{
    match o {
        Some(s) => Some(s.clone()),
        None => None,
    }
}

/// Compares two optional strings by content.
pub fn same_opt_string(a: &Option<String>, b: &Option<String>) -> (r: bool)
    ensures
        r == (a.deep_view() == b.deep_view()),
{
    match (a, b) {
        (Some(x), Some(y)) => *x == *y,
        (None, None) => true,
        _ => false,
    }
}

fn compatible_opt_string(mine: &Option<String>, theirs: &Option<String>) -> (r: bool)
    ensures
        r == field_compatible(mine.deep_view(), theirs.deep_view()),
{
    match (mine, theirs) {
        (Some(a), Some(b)) => *a == *b,
        (Some(_), None) => false,
        (None, _) => true,
    }
}

impl Clone for DisplayIdentifier {
    fn clone(&self) -> (r: Self)
        ensures
            r == *self,
    {
        DisplayIdentifier {
            name: copy_opt_string(&self.name),
            serial_number: copy_opt_string(&self.serial_number),
        }
    }
}

impl DisplayIdentifier {
    /// Returns `true` when this identifier is a subset of `other`.
    pub fn is_subset(&self, other: &DisplayIdentifier) -> (r: bool)
        ensures
            r == identifier_subset(self@, other@),
    {
        compatible_opt_string(&self.name, &other.name) && compatible_opt_string(
            &self.serial_number,
            &other.serial_number,
        )
    }

    /// Returns `true` when both identifiers hold the same name and serial number.
    pub fn same_as(&self, other: &DisplayIdentifier) -> (r: bool)
        ensures
            r == (self@ == other@),
    {
        same_opt_string(&self.name, &other.name) && same_opt_string(
            &self.serial_number,
            &other.serial_number,
        )
    }
}

/// A display identifier together with backend-specific location data.
#[derive(Debug, Default, PartialEq, Eq, PartialOrd, Ord, Hash)]
pub struct DisplayIdentifierInner {
    pub outer: DisplayIdentifier,
    pub path: Option<String>,
    pub gdi_device_id: Option<u32>,
}

impl Clone for DisplayIdentifierInner {
    fn clone(&self) -> (r: Self)
        ensures
            r == *self,
    {
        DisplayIdentifierInner {
            outer: self.outer.clone(),
            path: copy_opt_string(&self.path),
            gdi_device_id: self.gdi_device_id,
        }
    }
}

/// Logical display metadata reported by the operating system.
#[derive(Debug, Default, PartialEq, Eq, PartialOrd, Ord, Hash)]
pub struct LogicalDisplayMetadata {
    pub name: String,
    pub path: String,
    pub manufacturer: Option<String>,
    pub model: Option<String>,
    pub serial_number: Option<String>,
    pub gdi_device_id: Option<u32>,
}

impl Clone for LogicalDisplayMetadata {
    fn clone(&self) -> (r: Self)
        ensures
            r == *self,
    {
        LogicalDisplayMetadata {
            name: self.name.clone(),
            path: self.path.clone(),
            manufacturer: copy_opt_string(&self.manufacturer),
            model: copy_opt_string(&self.model),
            serial_number: copy_opt_string(&self.serial_number),
            gdi_device_id: self.gdi_device_id,
        }
    }
}

/// Logical display state: whether it is enabled and how it is laid out.
#[derive(Debug, Clone, Copy, Default, PartialEq, Eq, Structural, PartialOrd, Ord, Hash)]
pub struct LogicalDisplayState {
    pub is_enabled: bool,
    pub orientation: Orientation,
    pub width: Option<u32>,
    pub height: Option<u32>,
    pub pixel_format: Option<PixelFormat>,
    pub position: Option<Point>,
}

/// A logical display: what the operating system lays out on the desktop.
#[derive(Debug, Default, PartialEq, Eq, PartialOrd, Ord, Hash)]
pub struct LogicalDisplay {
    pub metadata: LogicalDisplayMetadata,
    pub state: LogicalDisplayState,
}

impl Clone for LogicalDisplay {
    fn clone(&self) -> (r: Self)
        ensures
            r == *self,
    {
        LogicalDisplay { metadata: self.metadata.clone(), state: self.state }
    }
}

/// Requested logical display changes; absent fields are left as they are.
#[derive(Debug, Clone, Copy, Default, PartialEq, Eq, PartialOrd, Ord, Hash)]
pub struct LogicalDisplayUpdateContent {
    pub is_enabled: Option<bool>,
    pub orientation: Option<Orientation>,
    pub width: Option<u32>,
    pub height: Option<u32>,
    pub pixel_format: Option<PixelFormat>,
    pub position: Option<Point>,
}

/// A logical update addressed to one concrete display.
#[derive(Debug, Default, PartialEq, Eq, PartialOrd, Ord, Hash)]
pub struct LogicalDisplayUpdate {
    pub id: DisplayIdentifierInner,
    pub content: LogicalDisplayUpdateContent,
}

impl Clone for LogicalDisplayUpdate {
    fn clone(&self) -> (r: Self)
        ensures
            r == *self,
    {
        LogicalDisplayUpdate { id: self.id.clone(), content: self.content }
    }
}

/// Physical monitor metadata.
#[derive(Debug, Default, PartialEq, Eq, PartialOrd, Ord, Hash)]
pub struct PhysicalDisplayMetadata {
    pub name: String,
    pub path: String,
    pub manufacturer: Option<String>,
    pub model: Option<String>,
    pub serial_number: Option<String>,
}

impl Clone for PhysicalDisplayMetadata {
    fn clone(&self) -> (r: Self)
        ensures
            r == *self,
    {
        PhysicalDisplayMetadata {
            name: self.name.clone(),
            path: self.path.clone(),
            manufacturer: copy_opt_string(&self.manufacturer),
            model: copy_opt_string(&self.model),
            serial_number: copy_opt_string(&self.serial_number),
        }
    }
}

/// Physical monitor state.
#[derive(Debug, Clone, Copy, Default, PartialEq, Eq, PartialOrd, Ord, Hash)]
pub struct PhysicalDisplayState {
    pub brightness: Brightness,
    pub scale_factor: i32,
}

/// A physical monitor reachable through DDC/CI or a backlight device.
#[derive(Debug, Default, PartialEq, Eq, PartialOrd, Ord, Hash)]
pub struct PhysicalDisplay {
    pub metadata: PhysicalDisplayMetadata,
    pub state: PhysicalDisplayState,
}

impl Clone for PhysicalDisplay {
    fn clone(&self) -> (r: Self)
        ensures
            r == *self,
    {
        PhysicalDisplay { metadata: self.metadata.clone(), state: self.state }
    }
}

/// Requested physical monitor changes.
#[derive(Debug, Clone, Copy, Default, PartialEq, Eq, PartialOrd, Ord, Hash)]
pub struct PhysicalDisplayUpdateContent {
    /// Requested brightness percentage.
    pub brightness: Option<u32>,
}

/// A physical update addressed to one concrete display.
#[derive(Debug, Default, PartialEq, Eq, PartialOrd, Ord, Hash)]
pub struct PhysicalDisplayUpdate {
    pub id: DisplayIdentifierInner,
    pub content: PhysicalDisplayUpdateContent,
}

impl Clone for PhysicalDisplayUpdate {
    fn clone(&self) -> (r: Self)
        ensures
            r == *self,
    {
        PhysicalDisplayUpdate { id: self.id.clone(), content: self.content }
    }
}


/// Every identifier is a subset of itself.
pub proof fn law_subset_reflexive(id: DisplayIdentifier)
    ensures
        identifier_subset(id@, id@),
{
}

/// Subset matching is transitive: an identifier that selects a second one selects every
/// identifier the second one selects.
pub proof fn law_subset_transitive(a: DisplayIdentifier, b: DisplayIdentifier, c: DisplayIdentifier)
    requires
        identifier_subset(a@, b@),
        identifier_subset(b@, c@),
    ensures
        identifier_subset(a@, c@),
{
}

/// An identifier with no fields set selects every display.
pub proof fn law_empty_identifier_selects_all(target: DisplayIdentifier)
    ensures
        identifier_subset((None, None), target@),
{
}

/// A requested field that the target lacks never matches.
pub proof fn law_set_field_requires_target_field(requested: DisplayIdentifier, target: DisplayIdentifier)
    requires
        (requested.name is Some && target.name is None) || (requested.serial_number is Some
            && target.serial_number is None),
    ensures
        !identifier_subset(requested@, target@),
{
}


/// An identifier is a subset of another exactly when each field it sets equals the other's
/// field: a differing name or serial number rejects the target, and an unset field accepts
/// any value.
pub proof fn law_subset_compares_each_set_field(requested: DisplayIdentifier, target: DisplayIdentifier)
    ensures
        identifier_subset(requested@, target@) <==> (requested@.0 is Some ==> requested@.0
            == target@.0) && (requested@.1 is Some ==> requested@.1 == target@.1),
{
}

} // verus!

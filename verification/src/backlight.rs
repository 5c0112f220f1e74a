//! Linux brightness devices exposed under `/sys/class/backlight` and `/sys/class/leds`.
use vstd::prelude::*;

use std::path::PathBuf;

use crate::types::copy_opt_string;

verus! {

/// A filesystem path (`std::path::PathBuf`), carried through unchanged.
#[verifier::external_type_specification]
#[verifier::external_body]
pub struct ExPathBuf(PathBuf);

/// The path that `PathBuf::from` builds from the given text.
pub uninterp spec fn path_buf_of(text: Seq<char>) -> PathBuf;

/// Calls `PathBuf::from(&String)`.
///
/// Trusted: the result is a function of the text alone (std documents that the conversion
/// copies the string's bytes into the path buffer); nothing else about it is stated.
#[verifier::external_body]
fn path_buf_from(text: &String) -> (r: PathBuf)
    ensures
        r == path_buf_of(text@),
{
    PathBuf::from(text)
}

/// Supported Linux sysfs device classes.
#[derive(Debug, Clone, Copy, PartialEq, Eq, Structural, PartialOrd, Ord, Hash)]
pub enum DeviceClass {
    /// A device found under `/sys/class/backlight`.
    Backlight,
    /// A device found under `/sys/class/leds`.
    Leds,
}

/// The sysfs class directory name of a device class.
pub open spec fn class_directory(class: DeviceClass) -> Seq<char> {
    match class {
        DeviceClass::Backlight => "backlight"@,
        DeviceClass::Leds => "leds"@,
    }
}

impl DeviceClass {
    /// Returns the sysfs class directory name.
    pub fn directory_name(self) -> (r: &'static str)
        ensures
            r@ == class_directory(self),
    {
        match self {
            DeviceClass::Backlight => "backlight",
            DeviceClass::Leds => "leds",
        }
    }
}

/// Stable metadata describing a Linux brightness device.
#[derive(Debug, PartialEq, Eq, PartialOrd, Ord, Hash)]
pub struct DeviceMetadata {
    /// The sysfs class the device was enumerated from.
    pub class: DeviceClass,
    /// The sysfs directory name of the device.
    pub id: String,
    /// The full sysfs path to the device directory.
    pub path: String,
}

impl Clone for DeviceMetadata {
    fn clone(&self) -> (r: Self)
        ensures
            r == *self,
    {
        DeviceMetadata { class: self.class, id: self.id.clone(), path: self.path.clone() }
    }
}

/// The current state of a Linux brightness device.
#[derive(Debug, Clone, Copy, PartialEq, Eq, PartialOrd, Ord, Hash)]
pub struct DeviceState {
    /// The raw value currently stored in `brightness`.
    pub brightness_raw: u32,
    /// The raw maximum value stored in `max_brightness`.
    pub max_brightness_raw: u32,
    /// The raw value stored in `actual_brightness` when the file exists.
    pub actual_brightness_raw: Option<u32>,
    /// The current brightness normalized to the inclusive range `0..=100`.
    pub brightness_percent: u8,
}

/// A Linux brightness-capable device and its current state.
#[derive(Debug, PartialEq, Eq, PartialOrd, Ord, Hash)]
pub struct Device {
    /// Stable metadata identifying the device.
    pub metadata: DeviceMetadata,
    /// The current brightness state reported by sysfs.
    pub state: DeviceState,
}

impl Clone for Device {
    fn clone(&self) -> (r: Self)
        ensures
            r == *self,
    {
        Device { metadata: self.metadata.clone(), state: self.state }
    }
}

impl Device {
    /// Returns the device's sysfs path as a [`PathBuf`].
    pub fn path(&self) -> (r: PathBuf)
        ensures
            r == path_buf_of(self.metadata.path@),
    {
        path_buf_from(&self.metadata.path)
    }
}

/// A user-facing identifier used to match one or more Linux brightness devices.
#[derive(Debug, Default, PartialEq, Eq, PartialOrd, Ord, Hash)]
pub struct DeviceIdentifier {
    /// Restricts matching to a specific sysfs class.
    pub class: Option<DeviceClass>,
    /// Restricts matching to a specific device directory name.
    pub id: Option<String>,
    /// Restricts matching to an exact sysfs device path.
    pub path: Option<String>,
}

impl Clone for DeviceIdentifier {
    fn clone(&self) -> (r: Self)
        ensures
            r == *self,
    {
        DeviceIdentifier {
            class: self.class,
            id: copy_opt_string(&self.id),
            path: copy_opt_string(&self.path),
        }
    }
}

/// Every restriction set on `ident` holds for `metadata`.
pub open spec fn device_selected(ident: DeviceIdentifier, metadata: DeviceMetadata) -> bool {
    &&& (ident.class matches Some(c) ==> c == metadata.class)
    &&& (ident.id.deep_view() matches Some(i) ==> i == metadata.id@)
    &&& (ident.path.deep_view() matches Some(p) ==> p == metadata.path@)
}

impl DeviceIdentifier {
    /// Returns `true` when every restriction set on this identifier holds for `metadata`.
    pub fn is_subset(&self, metadata: &DeviceMetadata) -> (r: bool)
        ensures
            r == device_selected(*self, *metadata),
    {
        if let Some(class) = self.class {
            if class != metadata.class {
                return false;
            }
        }
        if let Some(id) = &self.id {
            if *id != metadata.id {
                return false;
            }
        }
        if let Some(path) = &self.path {
            if *path != metadata.path {
                return false;
            }
        }
        true
    }
}

/// Supported brightness update operations.
#[derive(Debug, Clone, Copy, PartialEq, Eq, PartialOrd, Ord, Hash)]
pub enum BrightnessUpdate {
    /// Sets `brightness` to an absolute raw value.
    Raw(u32),
    /// Sets `brightness` to an absolute percentage of `max_brightness`.
    Percent(u8),
    /// Adds or subtracts a raw delta from the current `brightness` value.
    RawDelta(i32),
    /// Adds or subtracts a percentage delta from the current brightness percentage.
    PercentDelta(i32),
}

/// A request to update one or more Linux brightness devices.
#[derive(Debug, Default, PartialEq, Eq, PartialOrd, Ord, Hash)]
pub struct DeviceUpdate {
    /// The user-facing identifier used to match one or more devices.
    pub id: DeviceIdentifier,
    /// The brightness operation to apply when the identifier matches.
    pub brightness: Option<BrightnessUpdate>,
}


/// A raw brightness as a whole percentage of the maximum, rounded half up and capped at 100;
/// 0 when the maximum is 0.
pub open spec fn percent_of(raw: u32, max_raw: u32) -> u8 {
    if max_raw == 0 {
        0
    } else if (raw * 100 + max_raw / 2) / (max_raw as int) >= 100 {
        100
    } else {
        ((raw * 100 + max_raw / 2) / (max_raw as int)) as u8
    }
}

/// The raw brightness for a percentage of the maximum (capped at 100%), rounded half up.
pub open spec fn raw_for(percent: u8, max_raw: u32) -> u32 {
    let p: int = if percent < 100 {
        percent as int
    } else {
        100
    };
    ((p * max_raw + 50) / 100) as u32
}

/// The device directory a request writes to and the percentage it sets, when the request names
/// a directory and asks for an absolute percentage; `None` otherwise.
pub fn percent_write_target(request: &DeviceUpdate) -> (r: Option<(String, u8)>)
    ensures
        match (request.id.path, request.brightness) {
            (Some(path), Some(BrightnessUpdate::Percent(percent))) => r matches Some(t) && t.0@
                == path@ && t.1 == percent,
            _ => r is None,
        },
{
    match (&request.id.path, request.brightness) {
        (Some(path), Some(BrightnessUpdate::Percent(percent))) => Some((path.clone(), percent)),
        _ => None,
    }
}

/// The percentage a raw brightness stands for, given the device's maximum.
pub fn brightness_percent(raw: u32, max_raw: u32) -> (r: u8)
    ensures
        r == percent_of(raw, max_raw),
{
    if max_raw == 0 {
        return 0;
    }
    let scaled: u64 = (raw as u64) * 100 + (max_raw as u64) / 2;
    let q: u64 = scaled / (max_raw as u64);
    if q >= 100 {
        100
    } else {
        q as u8
    }
}

/// The raw brightness to write for a percentage, given the device's maximum.
pub fn raw_brightness(percent: u8, max_raw: u32) -> (r: u32)
    ensures
        r == raw_for(percent, max_raw),
        r <= max_raw,
{
    let p: u64 = if percent < 100 {
        percent as u64
    } else {
        100
    };
    assert(p * (max_raw as u64) <= 100 * (max_raw as u64)) by (nonlinear_arith)
        requires
            p <= 100,
    ;
    let scaled: u64 = p * (max_raw as u64) + 50;
    let q: u64 = scaled / 100;
    assert(q <= max_raw) by (nonlinear_arith)
        requires
            q == (p * max_raw + 50) / 100,
            p <= 100,
    ;
    q as u32
}

/// An identifier with no restrictions selects every device.
pub proof fn law_unrestricted_identifier_selects_all(metadata: DeviceMetadata)
    ensures
        device_selected(DeviceIdentifier { class: None, id: None, path: None }, metadata),
{
}

} // verus!

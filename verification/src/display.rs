//! Displays as seen by the manager: logical state plus, when matched, physical state.
use vstd::prelude::*;

use crate::types::{
    copy_opt_string, DisplayIdentifier, DisplayIdentifierInner, LogicalDisplay,
    LogicalDisplayMetadata, LogicalDisplayUpdate, LogicalDisplayUpdateContent, PhysicalDisplay,
    PhysicalDisplayMetadata, PhysicalDisplayUpdate, PhysicalDisplayUpdateContent,
};

verus! {

/// Metadata used to identify a display across logical and physical backends.
#[derive(Debug, PartialEq, Eq, PartialOrd, Ord, Hash)]
pub struct DisplayMetadata {
    /// Physical monitor metadata when the display exposes a physical interface.
    pub physical: Option<PhysicalDisplayMetadata>,
    /// Logical display metadata reported by the operating system.
    pub logical: LogicalDisplayMetadata,
}

impl Clone for DisplayMetadata {
    fn clone(&self) -> (r: Self)
        ensures
            r == *self,
    {
        DisplayMetadata {
            physical: match &self.physical {
                Some(p) => Some(p.clone()),
                None => None,
            },
            logical: self.logical.clone(),
        }
    }
}

/// The identifier of a display with the given metadata: the physical name, serial number
/// and path when a physical monitor is known, else the logical name and path.
pub open spec fn metadata_id(m: DisplayMetadata) -> DisplayIdentifierInner {
    DisplayIdentifierInner {
        outer: DisplayIdentifier {
            name: match m.physical {
                Some(p) => Some(p.name),
                None => Some(m.logical.name),
            },
            serial_number: match m.physical {
                Some(p) => p.serial_number,
                None => None,
            },
        },
        path: match m.physical {
            Some(p) => Some(p.path),
            None => Some(m.logical.path),
        },
        gdi_device_id: m.logical.gdi_device_id,
    }
}

impl DisplayMetadata {
    /// Builds the best-effort identifier for this display metadata.
    pub fn id(&self) -> (r: DisplayIdentifierInner)
        ensures
            r == metadata_id(*self),
    {
        match &self.physical {
            Some(physical) => DisplayIdentifierInner {
                outer: DisplayIdentifier {
                    name: Some(physical.name.clone()),
                    serial_number: copy_opt_string(&physical.serial_number),
                },
                path: Some(physical.path.clone()),
                gdi_device_id: self.logical.gdi_device_id,
            },
            None => DisplayIdentifierInner {
                outer: DisplayIdentifier { name: Some(self.logical.name.clone()), serial_number: None },
                path: Some(self.logical.path.clone()),
                gdi_device_id: self.logical.gdi_device_id,
            },
        }
    }
}

/// A display with logical state and, when available, physical monitor state.
#[derive(Debug, PartialEq, Eq, PartialOrd, Ord, Hash)]
pub struct Display {
    /// Physical monitor state when a physical monitor could be matched.
    pub physical: Option<PhysicalDisplay>,
    /// Logical display state reported by the platform backend.
    pub logical: LogicalDisplay,
}

impl Clone for Display {
    fn clone(&self) -> (r: Self)
        ensures
            r == *self,
    {
        Display {
            physical: match &self.physical {
                Some(p) => Some(p.clone()),
                None => None,
            },
            logical: self.logical.clone(),
        }
    }
}

/// The metadata of a display.
pub open spec fn display_metadata(d: Display) -> DisplayMetadata {
    DisplayMetadata {
        physical: match d.physical {
            Some(p) => Some(p.metadata),
            None => None,
        },
        logical: d.logical.metadata,
    }
}

/// The identifier of a display.
pub open spec fn display_id(d: Display) -> DisplayIdentifierInner {
    metadata_id(display_metadata(d))
}

impl Display {
    /// Returns the metadata describing this display.
    pub fn metadata(&self) -> (r: DisplayMetadata)
        ensures
            r == display_metadata(*self),
    {
        DisplayMetadata {
            physical: match &self.physical {
                Some(physical) => Some(physical.metadata.clone()),
                None => None,
            },
            logical: self.logical.metadata.clone(),
        }
    }

    /// Returns the best-effort identifier for this display.
    pub fn id(&self) -> (r: DisplayIdentifierInner)
        ensures
            r == display_id(*self),
    {
        self.metadata().id()
    }
}

/// A request to update one display.
///
/// Logical and physical updates can be combined when the target platform supports them.
#[derive(Debug, Default, PartialEq, Eq, PartialOrd, Ord, Hash)]
pub struct DisplayUpdate {
    /// The user-facing identifier used to match displays.
    pub id: DisplayIdentifier,
    /// Requested logical display changes.
    pub logical: Option<LogicalDisplayUpdateContent>,
    /// Requested physical monitor changes.
    pub physical: Option<PhysicalDisplayUpdateContent>,
}

impl Clone for DisplayUpdate {
    fn clone(&self) -> (r: Self)
        ensures
            r == *self,
    {
        DisplayUpdate { id: self.id.clone(), logical: self.logical, physical: self.physical }
    }
}

/// A display update addressed to one concrete display.
#[derive(Debug, Default, PartialEq, Eq, PartialOrd, Ord, Hash)]
pub struct DisplayUpdateInner {
    pub id: DisplayIdentifierInner,
    pub logical: Option<LogicalDisplayUpdateContent>,
    pub physical: Option<PhysicalDisplayUpdateContent>,
}

impl DisplayUpdateInner {
    /// The logical part of the update, addressed to the same display.
    pub fn into_logical_update(self) -> (r: Option<LogicalDisplayUpdate>)
        ensures
            r == match self.logical {
                Some(content) => Some(LogicalDisplayUpdate { id: self.id, content }),
                None => None,
            },
    {
        match self.logical {
            Some(content) => Some(LogicalDisplayUpdate { id: self.id, content }),
            None => None,
        }
    }

    /// The physical part of the update, addressed to the same display.
    pub fn into_physical_update(self) -> (r: Option<PhysicalDisplayUpdate>)
        ensures
            r == match self.physical {
                Some(content) => Some(PhysicalDisplayUpdate { id: self.id, content }),
                None => None,
            },
    {
        match self.physical {
            Some(content) => Some(PhysicalDisplayUpdate { id: self.id, content }),
            None => None,
        }
    }
}

} // verus!

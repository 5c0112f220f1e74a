use displays::astal::{
    error_message, fake_displays, Backend, DisplayData, DisplayIdentifierData, DisplayMatchData,
    DisplayUpdateData, DisplayUpdateResultData, DisplaysAstalError, FakeBackend,
    LogicalDisplayUpdateContentData, Orientation, PhysicalDisplayData, PointData, RealBackend,
};
use displays::display::{Display, DisplayUpdate};
use displays::manager::{
    DisplayApplyError, DisplayManager, DisplayMatch, DisplayQueryError, DisplayUpdateResult,
    FailedDisplayUpdate,
};
use displays::physical_linux::{PhysicalDisplayApplyError, PhysicalDisplayQueryError};
use displays::types::{
    Brightness, DisplayIdentifier, LogicalDisplay, LogicalDisplayMetadata, LogicalDisplayState,
    LogicalDisplayUpdateContent, PhysicalDisplay, PhysicalDisplayMetadata, PhysicalDisplayState,
    PhysicalDisplayUpdateContent, Point,
};

fn data_id(name: Option<&str>, serial: Option<&str>) -> DisplayIdentifierData {
    DisplayIdentifierData {
        name: name.map(str::to_string),
        serial_number: serial.map(str::to_string),
    }
}

fn sample_display() -> Display {
    Display {
        logical: LogicalDisplay {
            metadata: LogicalDisplayMetadata {
                name: "Logical".to_string(),
                path: "wayland:wlr:DP-1".to_string(),
                ..Default::default()
            },
            state: LogicalDisplayState {
                is_enabled: true,
                orientation: displays::types::Orientation::PortraitFlipped,
                width: Some(2560),
                height: Some(1440),
                pixel_format: None,
                position: Some(Point { x: -5, y: 7 }),
            },
        },
        physical: Some(PhysicalDisplay {
            metadata: PhysicalDisplayMetadata {
                name: "Dell".to_string(),
                path: "/dev/i2c-7".to_string(),
                manufacturer: None,
                model: None,
                serial_number: Some("ABC".to_string()),
            },
            state: PhysicalDisplayState {
                brightness: Brightness::new(42),
                scale_factor: 125,
            },
        }),
    }
}

#[test]
fn orientation_degrees_and_round_trips() {
    assert_eq!(Orientation::Landscape.degrees(), 0);
    assert_eq!(Orientation::Portrait.degrees(), 90);
    assert_eq!(Orientation::LandscapeFlipped.degrees(), 180);
    assert_eq!(Orientation::PortraitFlipped.degrees(), 270);
    for o in [
        displays::types::Orientation::Landscape,
        displays::types::Orientation::Portrait,
        displays::types::Orientation::LandscapeFlipped,
        displays::types::Orientation::PortraitFlipped,
    ] {
        assert_eq!(Orientation::from_display(o).to_display(), o);
    }
}

#[test]
fn identifier_data_subset_compares_present_fields() {
    let full = data_id(Some("Dell"), Some("ABC"));
    assert!(data_id(Some("Dell"), None).is_subset_of(&full));
    assert!(data_id(None, None).is_subset_of(&full));
    assert!(!data_id(Some("LG"), None).is_subset_of(&full));
    assert!(!full.is_subset_of(&data_id(Some("Dell"), None)));
    assert!(!data_id(None, Some("ABC")).is_subset_of(&data_id(Some("Dell"), None)));
    let id: DisplayIdentifier = full.clone().into();
    assert_eq!(DisplayIdentifierData::from(id), full);
}

#[test]
fn display_data_carries_physical_identifier_and_state() {
    let data = DisplayData::from_display(&sample_display());
    assert_eq!(data.id, data_id(Some("Dell"), Some("ABC")));
    assert!(data.logical.is_enabled);
    assert_eq!(data.logical.orientation, Orientation::PortraitFlipped);
    assert_eq!(data.logical.width, Some(2560));
    assert_eq!(data.logical.position, Some(PointData { x: -5, y: 7 }));
    assert_eq!(
        data.physical,
        Some(PhysicalDisplayData {
            brightness: Some(42),
            scale_factor: 125
        })
    );
}

#[test]
fn update_data_round_trips() {
    let data = DisplayUpdateData {
        id: data_id(Some("Dell"), None),
        logical: Some(LogicalDisplayUpdateContentData {
            is_enabled: Some(false),
            orientation: Some(Orientation::Portrait),
            width: Some(1920),
            height: None,
            position: Some(PointData { x: 1, y: 2 }),
        }),
        physical: None,
    };
    let update: DisplayUpdate = data.clone().into();
    assert_eq!(
        update.logical,
        Some(LogicalDisplayUpdateContent {
            is_enabled: Some(false),
            orientation: Some(displays::types::Orientation::Portrait),
            width: Some(1920),
            height: None,
            pixel_format: None,
            position: Some(Point { x: 1, y: 2 }),
        })
    );
    assert_eq!(DisplayUpdateData::from(update), data);
    let physical = DisplayUpdate {
        id: DisplayIdentifier {
            name: None,
            serial_number: Some("S".to_string()),
        },
        logical: None,
        physical: Some(PhysicalDisplayUpdateContent {
            brightness: Some(70),
        }),
    };
    let back: DisplayUpdate = DisplayUpdateData::from(physical.clone()).into();
    assert_eq!(back, physical);
}

#[test]
fn fake_backend_lists_three_displays() {
    let ds = fake_displays();
    assert_eq!(ds.len(), 3);
    assert_eq!(ds[0].id, data_id(Some("Dell U2720Q"), Some("DELLA1")));
    assert_eq!(ds[1].logical.orientation, Orientation::Portrait);
    assert_eq!(ds[2].physical, None);
    assert!(!ds[2].logical.is_enabled);
    assert_eq!(FakeBackend.query().unwrap(), ds);
}

#[test]
fn fake_backend_matches_by_identifier() {
    let matches = FakeBackend::get_matches(vec![
        data_id(None, Some("LGFINE2")),
        data_id(Some("Nobody"), None),
        data_id(None, None),
    ]);
    assert_eq!(matches.len(), 4);
    assert_eq!(matches[0].matched_id, data_id(Some("LG UltraFine"), Some("LGFINE2")));
    assert_eq!(matches[0].requested_id, data_id(None, Some("LGFINE2")));
    assert_eq!(matches[1].matched_id, data_id(Some("Dell U2720Q"), Some("DELLA1")));
    assert_eq!(matches[3].matched_id, data_id(Some("Virtual Display"), None));
    let via_trait = FakeBackend.get(vec![data_id(Some("Virtual Display"), None)]).unwrap();
    assert_eq!(via_trait.len(), 1);
    assert_eq!(via_trait[0].display.physical, None);
}

#[test]
fn fake_backend_applies_to_every_selected_display() {
    let all = DisplayUpdateData {
        id: data_id(None, None),
        logical: None,
        physical: None,
    };
    let results = FakeBackend.apply(vec![all], true).unwrap();
    assert_eq!(results.len(), 1);
    assert_eq!(results[0].applied.len(), 3);
    assert!(results[0].failed.is_empty());
}

#[test]
fn real_backend_converts_queries_and_errors() {
    let ok = RealBackend::query(Ok(vec![sample_display()])).unwrap();
    assert_eq!(ok, vec![DisplayData::from_display(&sample_display())]);
    let err = RealBackend::query(Err(DisplayQueryError::Physical {
        source: PhysicalDisplayQueryError::Enumerate,
    }))
    .unwrap_err();
    assert_eq!(err.kind, DisplaysAstalError::Failed);
    assert_eq!(err.message, "physical querying error");
    assert_eq!(
        error_message(DisplaysAstalError::Failed, "x").message,
        "x".to_string()
    );
}

#[test]
fn real_backend_get_matches_queried_displays() {
    let displays = vec![sample_display()];
    let expected = DisplayManager::get(
        &displays,
        vec![DisplayIdentifier {
            name: None,
            serial_number: Some("ABC".to_string()),
        }],
    );
    let got = RealBackend::get(Ok(displays), vec![data_id(None, Some("ABC"))]).unwrap();
    assert_eq!(got.len(), 1);
    assert_eq!(got[0], DisplayMatchData::from_match(expected.into_iter().next().unwrap()));
    let none = RealBackend::get(Ok(vec![sample_display()]), vec![data_id(Some("LG"), None)]).unwrap();
    assert!(none.is_empty());
}

#[test]
fn real_backend_converts_apply_results() {
    let result = DisplayUpdateResult {
        requested_update: DisplayUpdate::default(),
        applied: vec![DisplayIdentifier {
            name: Some("Dell".to_string()),
            serial_number: Some("ABC".to_string()),
        }],
        failed: vec![FailedDisplayUpdate {
            matched_id: DisplayIdentifier {
                name: Some("LG".to_string()),
                serial_number: None,
            },
            message: "busy".to_string(),
        }],
    };
    let converted = RealBackend::apply(Ok(vec![result])).unwrap();
    assert_eq!(converted.len(), 1);
    let r: &DisplayUpdateResultData = &converted[0];
    assert_eq!(r.applied, vec![data_id(Some("Dell"), Some("ABC"))]);
    assert_eq!(r.failed.len(), 1);
    assert_eq!(r.failed[0].matched_id, data_id(Some("LG"), None));
    assert_eq!(r.failed[0].message, "busy");
    let err = RealBackend::apply(Err(DisplayApplyError::Physical {
        source: PhysicalDisplayApplyError::DdcOperation {
            display_id: "i2c-7".to_string(),
            message: "timed out".to_string(),
        },
    }))
    .unwrap_err();
    assert_eq!(
        err.message,
        "physical applying error: failed to set brightness for display 'i2c-7': timed out"
    );
}

#[test]
fn display_match_data_mirrors_match() {
    let display = sample_display();
    let m = DisplayMatch {
        requested_id: DisplayIdentifier {
            name: Some("Dell".to_string()),
            serial_number: None,
        },
        matched_id: display.id().outer,
        display: display.clone(),
    };
    let data = DisplayMatchData::from_match(m);
    assert_eq!(data.requested_id, data_id(Some("Dell"), None));
    assert_eq!(data.matched_id, data_id(Some("Dell"), Some("ABC")));
    assert_eq!(data.display, DisplayData::from_display(&display));
}

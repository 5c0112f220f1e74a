use displays::commands::QueryCommand;
use displays::display::{Display, DisplayMetadata, DisplayUpdate, DisplayUpdateInner};
use displays::logical_windows::{LogicalDisplayApplyError, LogicalDisplayQueryError, WindowsError};
use displays::manager::{
    new_update_result, push_applied_once, push_failed, ApplyAction, ApplyEvent, ApplyOutcome,
    DisplayApplyError, DisplayManager, DisplayQueryError,
};
use displays::physical_linux::{PhysicalDisplayApplyError, PhysicalDisplayQueryError};
use displays::session::SessionAction;
use displays::types::{
    Brightness, DisplayIdentifier, DisplayIdentifierInner, LogicalDisplay, LogicalDisplayMetadata,
    LogicalDisplayState, LogicalDisplayUpdateContent, Orientation, PhysicalDisplay,
    PhysicalDisplayMetadata, PhysicalDisplayState, PhysicalDisplayUpdateContent,
};

fn logical(name: &str, path: &str, enabled: bool) -> LogicalDisplay {
    LogicalDisplay {
        metadata: LogicalDisplayMetadata {
            name: name.to_string(),
            path: path.to_string(),
            ..Default::default()
        },
        state: LogicalDisplayState {
            is_enabled: enabled,
            ..Default::default()
        },
    }
}

fn physical(name: &str, path: &str, serial: &str) -> PhysicalDisplay {
    PhysicalDisplay {
        metadata: PhysicalDisplayMetadata {
            name: name.to_string(),
            path: path.to_string(),
            manufacturer: None,
            model: None,
            serial_number: Some(serial.to_string()),
        },
        state: PhysicalDisplayState {
            brightness: Brightness::new(50),
            scale_factor: 100,
        },
    }
}

fn id(name: Option<&str>, serial: Option<&str>) -> DisplayIdentifier {
    DisplayIdentifier {
        name: name.map(str::to_string),
        serial_number: serial.map(str::to_string),
    }
}

fn two_displays() -> Vec<Display> {
    DisplayManager::query(
        vec![
            logical("DELL U2720Q", "wayland:wlr:DP-1", true),
            logical("Built-in", "wayland:wlr:eDP-1", false),
        ],
        vec![
            physical("DELL U2720Q", "/dev/i2c-7", "ABC"),
            physical(
                "intel_backlight",
                "/sys/devices/pci0000:00/0000:00:02.0/drm/card0/card0-eDP-1/intel_backlight",
                "",
            ),
        ],
    )
}

#[test]
fn query_keeps_logical_order_and_attaches_each_physical_once() {
    let displays = two_displays();
    assert_eq!(displays.len(), 2);
    assert_eq!(displays[0].logical.metadata.name, "DELL U2720Q");
    assert_eq!(displays[1].logical.metadata.name, "Built-in");
    assert_eq!(
        displays[0].physical.as_ref().map(|p| p.metadata.path.as_str()),
        Some("/dev/i2c-7")
    );
    assert_eq!(
        displays[1].physical.as_ref().map(|p| p.metadata.name.as_str()),
        Some("intel_backlight")
    );
}

#[test]
fn query_leaves_unmatched_logical_displays_without_physical() {
    let displays = DisplayManager::query(
        vec![logical("A", "wayland:wlr:unknown", true), logical("A", "wayland:wlr:unknown", true)],
        vec![physical("A", "/dev/i2c-1", "S")],
    );
    assert_eq!(displays.len(), 2);
    assert!(displays[0].physical.is_some());
    assert!(displays[1].physical.is_none());
}

#[test]
fn query_by_path_prefix_takes_first_prefixed_physical() {
    let displays = DisplayManager::query_by_path_prefix(
        vec![logical("Monitor", "\\\\?\\DISPLAY#DEL#1", true)],
        vec![
            physical("Other", "\\\\?\\DISPLAY#LG#2", "X"),
            physical("Dell", "\\\\?\\DISPLAY#DEL", "Y"),
        ],
    );
    assert_eq!(
        displays[0].physical.as_ref().map(|p| p.metadata.name.as_str()),
        Some("Dell")
    );
}

#[test]
fn display_ids_prefer_physical_metadata() {
    let displays = two_displays();
    let first = displays[0].id();
    assert_eq!(first.outer, id(Some("DELL U2720Q"), Some("ABC")));
    assert_eq!(first.path, Some("/dev/i2c-7".to_string()));
    let bare = Display {
        logical: logical("Lonely", "wayland:wlr:HDMI-A-1", true),
        physical: None,
    };
    let bare_id = bare.id();
    assert_eq!(bare_id.outer, id(Some("Lonely"), None));
    assert_eq!(bare_id.path, Some("wayland:wlr:HDMI-A-1".to_string()));
    let metadata: DisplayMetadata = bare.metadata();
    assert_eq!(metadata.id(), bare_id);
}

#[test]
fn get_groups_matches_by_request() {
    let displays = two_displays();
    let matches = DisplayManager::get(
        &displays,
        vec![id(Some("intel_backlight"), None), id(None, None), id(Some("nobody"), None)],
    );
    assert_eq!(matches.len(), 3);
    assert_eq!(matches[0].requested_id, id(Some("intel_backlight"), None));
    assert_eq!(matches[0].matched_id, id(Some("intel_backlight"), Some("")));
    assert_eq!(matches[1].matched_id, id(Some("DELL U2720Q"), Some("ABC")));
    assert_eq!(matches[2].matched_id, id(Some("intel_backlight"), Some("")));
    assert_eq!(matches[2].requested_id, id(None, None));
}

#[test]
fn matched_updates_pair_each_update_with_its_displays() {
    let displays = two_displays();
    let updates = vec![
        DisplayUpdate {
            id: id(None, Some("ABC")),
            logical: None,
            physical: None,
        },
        DisplayUpdate {
            id: id(Some("missing"), None),
            logical: None,
            physical: None,
        },
    ];
    let pairs = DisplayManager::matched_updates(&displays, updates);
    assert_eq!(pairs.len(), 2);
    assert_eq!(pairs[0].1.len(), 1);
    assert_eq!(pairs[0].1[0].outer, id(Some("DELL U2720Q"), Some("ABC")));
    assert!(pairs[1].1.is_empty());
}

fn brightness_update(name: &str, brightness: u32) -> DisplayUpdate {
    DisplayUpdate {
        id: id(Some(name), None),
        logical: None,
        physical: Some(PhysicalDisplayUpdateContent {
            brightness: Some(brightness),
        }),
    }
}

#[test]
fn session_applies_physical_updates_and_collects_results() {
    let displays = two_displays();
    let session = DisplayManager::update(
        &displays,
        vec![brightness_update("DELL U2720Q", 50), brightness_update("nobody", 10)],
    );
    let (session, action) = session.step(ApplyEvent::Start);
    match action {
        SessionAction::ApplyPhysical(u) => {
            assert_eq!(u.id.outer, id(Some("DELL U2720Q"), Some("ABC")));
            assert_eq!(u.content.brightness, Some(50));
        }
        other => panic!("unexpected action {other:?}"),
    }
    let (session, action) = session.step(ApplyEvent::PhysicalApplied(ApplyOutcome::Applied));
    assert_eq!(action, SessionAction::Finished);
    assert!(session.is_finished());
    let results = session.into_results();
    assert_eq!(results.len(), 2);
    assert_eq!(results[0].applied, vec![id(Some("DELL U2720Q"), Some("ABC"))]);
    assert!(results[0].failed.is_empty());
    assert!(results[1].applied.is_empty());
    assert!(results[1].failed.is_empty());
}

#[test]
fn validating_session_never_asks_for_physical_updates() {
    let displays = two_displays();
    let session = DisplayManager::validate(&displays, vec![brightness_update("DELL U2720Q", 50)]);
    let (session, action) = session.step(ApplyEvent::Start);
    assert_eq!(action, SessionAction::Finished);
    let results = session.into_results();
    assert_eq!(results.len(), 1);
    assert_eq!(results[0].applied.len(), 1);
}

#[test]
fn session_records_failures_with_messages() {
    let displays = two_displays();
    let update = DisplayUpdate {
        id: id(None, None),
        logical: Some(LogicalDisplayUpdateContent {
            orientation: Some(Orientation::Portrait),
            ..Default::default()
        }),
        physical: Some(PhysicalDisplayUpdateContent {
            brightness: Some(20),
        }),
    };
    let session = DisplayManager::apply(&displays, vec![update], false);
    let (session, action) = session.step(ApplyEvent::Start);
    assert!(matches!(action, SessionAction::ApplyLogical(_)));
    let (session, action) = session.step(ApplyEvent::LogicalApplied(ApplyOutcome::NotApplied));
    assert!(matches!(action, SessionAction::ApplyLogical(_)));
    let (session, action) = session.step(ApplyEvent::LogicalApplied(ApplyOutcome::Applied));
    assert!(matches!(action, SessionAction::ApplyPhysical(_)));
    let (session, action) = session.step(ApplyEvent::PhysicalApplied(ApplyOutcome::Failed {
        message: "busy".to_string(),
    }));
    assert_eq!(action, SessionAction::Finished);
    let results = session.into_results();
    assert_eq!(results.len(), 1);
    assert!(results[0].applied.is_empty());
    assert_eq!(results[0].failed.len(), 2);
    assert_eq!(results[0].failed[0].message, "logical update was not applied");
    assert_eq!(results[0].failed[0].matched_id, id(Some("DELL U2720Q"), Some("ABC")));
    assert_eq!(results[0].failed[1].message, "busy");
    assert_eq!(results[0].failed[1].matched_id, id(Some("intel_backlight"), Some("")));
}

#[test]
fn apply_step_follows_logical_then_physical() {
    let update = DisplayUpdate {
        id: id(Some("x"), None),
        logical: Some(LogicalDisplayUpdateContent {
            is_enabled: Some(true),
            ..Default::default()
        }),
        physical: Some(PhysicalDisplayUpdateContent {
            brightness: Some(30),
        }),
    };
    let matched = DisplayIdentifierInner {
        outer: id(Some("x"), Some("1")),
        path: None,
        gdi_device_id: Some(3),
    };
    let mut result = new_update_result(&update);
    let a = DisplayManager::apply_step(&mut result, &matched, false, ApplyEvent::Start);
    assert!(matches!(a, ApplyAction::ApplyLogical(_)));
    let a = DisplayManager::apply_step(
        &mut result,
        &matched,
        false,
        ApplyEvent::LogicalApplied(ApplyOutcome::Applied),
    );
    assert!(matches!(a, ApplyAction::ApplyPhysical(_)));
    let a = DisplayManager::apply_step(
        &mut result,
        &matched,
        false,
        ApplyEvent::PhysicalApplied(ApplyOutcome::NotApplied),
    );
    assert_eq!(a, ApplyAction::Done);
    assert_eq!(result.failed.len(), 1);
    assert_eq!(result.failed[0].message, "physical update was not applied");
    assert!(result.applied.is_empty());
}

#[test]
fn applied_identifiers_are_recorded_once() {
    let mut result = new_update_result(&DisplayUpdate::default());
    push_applied_once(&mut result, id(Some("a"), None));
    push_applied_once(&mut result, id(Some("a"), None));
    push_applied_once(&mut result, id(Some("b"), None));
    assert_eq!(result.applied, vec![id(Some("a"), None), id(Some("b"), None)]);
    push_failed(&mut result, id(Some("a"), None), "boom".to_string());
    assert_eq!(result.failed.len(), 1);
    assert_eq!(result.applied.len(), 2);
}

#[test]
fn update_inner_splits_into_logical_and_physical() {
    let inner = DisplayUpdateInner {
        id: DisplayIdentifierInner {
            outer: id(Some("x"), None),
            path: Some("p".to_string()),
            gdi_device_id: None,
        },
        logical: None,
        physical: Some(PhysicalDisplayUpdateContent {
            brightness: Some(5),
        }),
    };
    let physical = DisplayUpdateInner {
        id: inner.id.clone(),
        logical: None,
        physical: inner.physical,
    }
    .into_physical_update()
    .unwrap();
    assert_eq!(physical.content.brightness, Some(5));
    assert_eq!(physical.id.path, Some("p".to_string()));
    assert!(inner.into_logical_update().is_none());
}

#[test]
fn manager_error_messages() {
    let query = DisplayQueryError::Physical {
        source: PhysicalDisplayQueryError::Enumerate,
    };
    assert_eq!(query.to_string(), "physical querying error");
    let logical_query = DisplayQueryError::Logical {
        source: LogicalDisplayQueryError::WindowsError {
            source: WindowsError { code: 5 },
        },
    };
    assert_eq!(logical_query.to_string(), "logical querying error");
    assert_eq!(
        DisplayApplyError::Query { source: query }.to_string(),
        "error while first querying displays"
    );
    assert_eq!(
        DisplayApplyError::Physical {
            source: PhysicalDisplayApplyError::PermissionDenied {
                display_id: "i2c-7".to_string()
            }
        }
        .to_string(),
        "physical applying error: insufficient permissions for display 'i2c-7'"
    );
    assert_eq!(
        DisplayApplyError::Logical {
            source: LogicalDisplayApplyError::WindowsError {
                source: WindowsError { code: 87 },
            }
        }
        .to_string(),
        "logical applying error"
    );
}

#[test]
fn query_command_filters_by_enabled_state() {
    let displays = two_displays();
    let enabled = QueryCommand {
        is_enabled: Some(true),
    }
    .displays_to_print(displays.clone());
    assert_eq!(enabled.len(), 1);
    assert_eq!(enabled[0].logical.metadata.name, "DELL U2720Q");
    let disabled = QueryCommand {
        is_enabled: Some(false),
    }
    .displays_to_print(displays.clone());
    assert_eq!(disabled.len(), 1);
    assert_eq!(disabled[0].logical.metadata.name, "Built-in");
    let all = QueryCommand { is_enabled: None }.displays_to_print(displays);
    assert_eq!(all.len(), 2);
}

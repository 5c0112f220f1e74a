use displays::logical_windows::{
    get_used_source_ids, LogicalDisplayManagerWindows, PathEntry, PathInfo, SelectedPath,
    MODE_INDEX_INVALID,
};
use displays::monitors::{
    get_hmonitor_for_path, trim_trailing_nuls, MonitorInfo, MonitorLookupError, PathDeviceNames,
    TargetNames,
};
use displays::types::{
    DisplayIdentifier, DisplayIdentifierInner, LogicalDisplay, LogicalDisplayMetadata,
    LogicalDisplayState, LogicalDisplayUpdate, LogicalDisplayUpdateContent, Orientation,
};

fn windows_display(name: &str, path: &str, gdi: u32, enabled: bool) -> LogicalDisplay {
    LogicalDisplay {
        metadata: LogicalDisplayMetadata {
            name: name.to_string(),
            path: path.to_string(),
            manufacturer: None,
            model: None,
            serial_number: None,
            gdi_device_id: Some(gdi),
        },
        state: LogicalDisplayState {
            is_enabled: enabled,
            ..Default::default()
        },
    }
}

fn entry(source_id: u32, is_active: bool, display: Option<LogicalDisplay>) -> PathEntry {
    PathEntry {
        source_id,
        is_active,
        rotation: Orientation::Landscape,
        display,
    }
}

fn update_for(name: &str, content: LogicalDisplayUpdateContent) -> LogicalDisplayUpdate {
    LogicalDisplayUpdate {
        id: DisplayIdentifierInner {
            outer: DisplayIdentifier {
                name: Some(name.to_string()),
                serial_number: None,
            },
            path: None,
            gdi_device_id: None,
        },
        content,
    }
}

#[test]
fn metadata_reports_each_display_once_preferring_enabled_entries() {
    let a_on = windows_display("A", "\\\\?\\A", 1, true);
    let a_off = windows_display("A", "\\\\?\\A", 1, false);
    let b_off = windows_display("B", "\\\\?\\B", 2, false);
    let listed = LogicalDisplayManagerWindows::metadata(vec![
        a_off.clone(),
        a_on.clone(),
        b_off.clone(),
        b_off.clone(),
        a_on.clone(),
    ]);
    assert_eq!(listed.len(), 2);
    assert!(listed.contains(&a_on));
    assert!(listed.contains(&b_off));
    assert!(!listed.contains(&a_off));
}

#[test]
fn metadata_lists_displays_in_ascending_order() {
    let b_on = windows_display("B", "\\\\?\\B", 2, true);
    let a_off = windows_display("A", "\\\\?\\A", 1, false);
    let c_on = windows_display("C", "\\\\?\\C", 3, true);
    let a_on_other_gdi = windows_display("A", "\\\\?\\A", 0, true);
    let listed = LogicalDisplayManagerWindows::metadata(vec![
        c_on.clone(),
        b_on.clone(),
        a_off.clone(),
        a_on_other_gdi.clone(),
    ]);
    // The disabled A has other metadata (another GDI device id) than the enabled A, so both stay.
    assert_eq!(listed, vec![a_on_other_gdi, a_off, b_on, c_on]);
}

#[test]
fn apply_enables_a_path_once_per_source() {
    let a = windows_display("A", "\\\\?\\A", 1, false);
    let b = windows_display("B", "\\\\?\\B", 2, false);
    let paths = vec![
        entry(0, false, Some(a.clone())),
        entry(0, false, Some(b.clone())),
        entry(1, true, None),
    ];
    let enable = LogicalDisplayUpdateContent {
        is_enabled: Some(true),
        ..Default::default()
    };
    let plan = LogicalDisplayManagerWindows::apply(
        &paths,
        vec![update_for("A", enable), update_for("B", enable)],
    );
    assert_eq!(
        plan.selected,
        vec![SelectedPath {
            index: 0,
            is_active: true,
            rotation: Orientation::Landscape
        }]
    );
    assert_eq!(plan.remaining.len(), 1);
    assert_eq!(plan.remaining[0].id.outer.name, Some("B".to_string()));
    assert!(plan.any_have_changed);
}

#[test]
fn apply_disables_and_rotates_active_paths() {
    let a = windows_display("A", "\\\\?\\A", 1, true);
    let paths = vec![entry(4, true, Some(a))];
    let plan = LogicalDisplayManagerWindows::apply(
        &paths,
        vec![
            update_for(
                "A",
                LogicalDisplayUpdateContent {
                    is_enabled: Some(false),
                    orientation: Some(Orientation::Portrait),
                    ..Default::default()
                },
            ),
            update_for("Z", LogicalDisplayUpdateContent::default()),
        ],
    );
    assert_eq!(
        plan.selected,
        vec![SelectedPath {
            index: 0,
            is_active: false,
            rotation: Orientation::Portrait
        }]
    );
    assert_eq!(plan.remaining.len(), 1);
    assert_eq!(plan.remaining[0].id.outer.name, Some("Z".to_string()));
    assert!(plan.any_have_changed);
}

#[test]
fn apply_without_changes_keeps_paths_as_they_are() {
    let a = windows_display("A", "\\\\?\\A", 1, true);
    let paths = vec![entry(4, true, Some(a)), entry(5, false, None)];
    let plan = LogicalDisplayManagerWindows::apply(
        &paths,
        vec![update_for("A", LogicalDisplayUpdateContent::default())],
    );
    assert_eq!(plan.selected.len(), 1);
    assert_eq!(plan.selected[0].index, 0);
    assert!(plan.selected[0].is_active);
    assert!(plan.remaining.is_empty());
    assert!(!plan.any_have_changed);
}

#[test]
fn used_sources_are_those_of_active_paths() {
    let paths = vec![entry(3, true, None), entry(1, false, None), entry(7, true, None)];
    assert_eq!(get_used_source_ids(&paths), vec![3, 7]);
}

#[test]
fn path_infos_split_into_paths_and_mode_table() {
    let infos = vec![
        PathInfo {
            path: 'a',
            mode_source: Some(10u8),
            mode_target: Some(11u8),
        },
        PathInfo {
            path: 'b',
            mode_source: None,
            mode_target: Some(12u8),
        },
        PathInfo {
            path: 'c',
            mode_source: None,
            mode_target: None,
        },
    ];
    let (paths, modes) = PathInfo::into_vecs(infos);
    assert_eq!(modes, vec![10, 11, 12]);
    assert_eq!(
        paths,
        vec![
            ('a', 0, 1),
            ('b', MODE_INDEX_INVALID, 2),
            ('c', MODE_INDEX_INVALID, MODE_INDEX_INVALID)
        ]
    );
    let back = PathInfo::get_path_info('b', MODE_INDEX_INVALID, 2, &modes);
    assert_eq!(
        back,
        PathInfo {
            path: 'b',
            mode_source: None,
            mode_target: Some(12u8)
        }
    );
    let first = PathInfo::get_path_info('a', 0, 1, &modes);
    assert_eq!(first.mode_source, Some(10));
    assert_eq!(first.mode_target, Some(11));
}

fn path_names(source_id: u32, friendly: &str, device: &str, gdi: Option<&str>) -> PathDeviceNames {
    PathDeviceNames {
        source_id,
        target: Some(TargetNames {
            friendly_device_name: friendly.to_string(),
            device_path: device.to_string(),
        }),
        gdi_device_name: gdi.map(str::to_string),
    }
}

#[test]
fn trailing_nuls_are_trimmed() {
    assert_eq!(trim_trailing_nuls("\\\\.\\DISPLAY1\0\0\0"), "\\\\.\\DISPLAY1");
    assert_eq!(trim_trailing_nuls("\0a\0"), "\0a");
    assert_eq!(trim_trailing_nuls("\0\0"), "");
    assert_eq!(trim_trailing_nuls("plain"), "plain");
}

#[test]
fn hmonitor_lookup_follows_source_and_device_path() {
    let paths = vec![
        path_names(1, "DELL U2720Q\0\0", "\\\\?\\DISPLAY#DEL#1\0", Some("\\\\.\\DISPLAY1\0")),
        path_names(2, "DELL U2720Q", "\\\\?\\DISPLAY#DEL#2", Some("\\\\.\\DISPLAY2")),
    ];
    let monitors = vec![
        MonitorInfo {
            device_name: "\\\\.\\DISPLAY2\0\0".to_string(),
        },
        MonitorInfo {
            device_name: "\\\\.\\DISPLAY1".to_string(),
        },
    ];
    assert_eq!(get_hmonitor_for_path("DELL U2720Q", 1, &paths, &monitors), Ok(1));
    assert_eq!(
        get_hmonitor_for_path("\\\\?\\DISPLAY#DEL#2", 2, &paths, &monitors),
        Ok(0)
    );
    assert_eq!(
        get_hmonitor_for_path("DELL U2720Q", 3, &paths, &monitors),
        Err(MonitorLookupError::NotFound)
    );
    assert_eq!(
        get_hmonitor_for_path("\\\\?\\DISPLAY#DEL#2", 1, &paths, &monitors),
        Err(MonitorLookupError::NotFound)
    );
}

#[test]
fn hmonitor_lookup_skips_paths_without_names_or_monitor() {
    let paths = vec![
        PathDeviceNames {
            source_id: 1,
            target: None,
            gdi_device_name: Some("\\\\.\\DISPLAY1".to_string()),
        },
        path_names(1, "Panel", "p", None),
        path_names(1, "Panel", "p", Some("\\\\.\\DISPLAY9")),
        path_names(1, "Panel", "p", Some("\\\\.\\DISPLAY3")),
    ];
    let monitors = vec![MonitorInfo {
        device_name: "\\\\.\\DISPLAY3".to_string(),
    }];
    assert_eq!(get_hmonitor_for_path("Panel", 1, &paths, &monitors), Ok(0));
    assert_eq!(
        MonitorLookupError::NotFound.to_string(),
        "HMonitor not found for the given path and source id"
    );
}

#[test]
fn path_infos_read_back_after_splitting() {
    let infos = vec![
        PathInfo {
            path: 1u16,
            mode_source: None,
            mode_target: Some(7u32),
        },
        PathInfo {
            path: 2u16,
            mode_source: Some(8u32),
            mode_target: Some(9u32),
        },
        PathInfo {
            path: 3u16,
            mode_source: Some(10u32),
            mode_target: None,
        },
    ];
    let (paths, modes) = PathInfo::into_vecs(infos.clone());
    assert_eq!(paths[1], (2, 1, 2));
    assert_eq!(PathInfo::get_path_infos(&paths, &modes), infos);
}

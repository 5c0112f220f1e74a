use displays::backlight::{
    brightness_percent, raw_brightness, BrightnessUpdate, Device, DeviceClass, DeviceIdentifier, DeviceMetadata, DeviceState,
};
use displays::display::DisplayUpdate;
use displays::physical_linux::{
    backlight_handle_from_device, backlight_request, classify_apply_error, ddc_handle,
    ddc_reading_brightness, display_update_with_brightness, id_from_metadata, is_io_error,
    metadata_from_info, stable_fallback_id, BacklightApplyUpdate, BacklightListError,
    DdcApplyUpdate, DdcBrightnessReading, DdcDisplayInfo, DdcMonitor, LinuxDisplayHandle,
    LinuxPhysicalBackend, PhysicalDisplayApplyError, PhysicalDisplayManagerLinux,
    PhysicalDisplayQueryError,
};
use displays::types::{
    Brightness, DisplayIdentifier, DisplayIdentifierInner, PhysicalDisplayMetadata,
    PhysicalDisplayState, PhysicalDisplayUpdateContent,
};

fn id(name: &str, serial: Option<&str>) -> DisplayIdentifier {
    DisplayIdentifier {
        name: Some(name.to_string()),
        serial_number: serial.map(str::to_string),
    }
}

fn inner(name: &str, serial: &str, path: &str) -> DisplayIdentifierInner {
    DisplayIdentifierInner {
        outer: id(name, Some(serial)),
        path: Some(path.to_string()),
        gdi_device_id: None,
    }
}

fn backlight_device(class: DeviceClass, name: &str, percent: u8) -> Device {
    Device {
        metadata: DeviceMetadata {
            class,
            id: name.to_string(),
            path: format!("/sys/class/backlight/{name}"),
        },
        state: DeviceState {
            brightness_raw: 300,
            max_brightness_raw: 1200,
            actual_brightness_raw: Some(300),
            brightness_percent: percent,
        },
    }
}

fn ddc_info(id: &str, model: Option<&str>, serial_number: Option<&str>, serial: Option<u32>) -> DdcDisplayInfo {
    DdcDisplayInfo {
        id: id.to_string(),
        model_name: model.map(str::to_string),
        serial_number: serial_number.map(str::to_string),
        serial,
    }
}

fn handle(name: &str, path: &str, backend: LinuxPhysicalBackend) -> LinuxDisplayHandle {
    LinuxDisplayHandle {
        metadata: PhysicalDisplayMetadata {
            name: name.to_string(),
            path: path.to_string(),
            manufacturer: None,
            model: None,
            serial_number: Some(String::new()),
        },
        state: PhysicalDisplayState {
            brightness: Brightness::new(40),
            scale_factor: 100,
        },
        backend,
    }
}

fn brightness_update(name: &str, brightness: u32) -> DisplayUpdate {
    DisplayUpdate {
        id: id(name, None),
        logical: None,
        physical: Some(PhysicalDisplayUpdateContent {
            brightness: Some(brightness),
        }),
    }
}

#[test]
fn fallback_id_is_fnv1a_in_sixteen_hex_digits() {
    assert_eq!(stable_fallback_id(""), "14650fb0739d0383");
    assert_eq!(stable_fallback_id("a"), "44bd8ad473cd9906");
    assert_eq!(stable_fallback_id("i2c-7"), "53bbde51599aa6fd");
    assert_eq!(stable_fallback_id("i2c-7"), stable_fallback_id("i2c-7"));
    assert_eq!(stable_fallback_id("/dev/i2c-7").len(), 16);
}

#[test]
fn ddc_metadata_prefers_model_and_serial_strings() {
    let m = metadata_from_info(&ddc_info("i2c-7", Some("DELL U2720Q"), Some("ABC123"), Some(42)));
    assert_eq!(m.name, "DELL U2720Q");
    assert_eq!(m.path, "i2c-7");
    assert_eq!(m.serial_number, Some("ABC123".to_string()));
    assert_eq!(m.manufacturer, None);
    assert_eq!(m.model, None);
}

#[test]
fn ddc_metadata_falls_back_to_numeric_serial_then_hash() {
    let numeric = metadata_from_info(&ddc_info("i2c-7", None, None, Some(9071)));
    assert_eq!(numeric.name, "Display i2c-7");
    assert_eq!(numeric.serial_number, Some("9071".to_string()));

    let zero = metadata_from_info(&ddc_info("i2c-3", None, None, Some(0)));
    assert_eq!(zero.serial_number, Some("0".to_string()));

    let hashed = metadata_from_info(&ddc_info("i2c-7", None, None, None));
    assert_eq!(hashed.serial_number, Some("fallback-53bbde51599aa6fd".to_string()));
}

#[test]
fn ddc_handle_caps_brightness_at_one_hundred() {
    let info = ddc_info("i2c-7", Some("Dell"), Some("S1"), None);
    let h = ddc_handle(2, &info, 150);
    assert_eq!(h.state.brightness.value(), 100);
    assert_eq!(h.state.scale_factor, 100);
    assert_eq!(h.backend, LinuxPhysicalBackend::Ddc { display_index: 2 });
    let h = ddc_handle(0, &info, 37);
    assert_eq!(h.state.brightness.value(), 37);
}

#[test]
fn reading_brightness_skips_zero_maximum_and_non_io_failures() {
    assert_eq!(
        ddc_reading_brightness(&DdcBrightnessReading::Read { maximum: 100, percent: 62 }),
        Some(62)
    );
    assert_eq!(
        ddc_reading_brightness(&DdcBrightnessReading::Read { maximum: 0, percent: 0 }),
        None
    );
    assert_eq!(
        ddc_reading_brightness(&DdcBrightnessReading::Failed {
            message: "Input/output error (os error 5)".to_string()
        }),
        Some(0)
    );
    assert_eq!(
        ddc_reading_brightness(&DdcBrightnessReading::Failed {
            message: "DDC/CI checksum mismatch".to_string()
        }),
        None
    );
}

#[test]
fn enumerating_ddc_handles_keeps_positions_of_listed_monitors() {
    let monitors = vec![
        DdcMonitor {
            info: ddc_info("i2c-3", Some("First"), Some("F1"), None),
            reading: DdcBrightnessReading::Read { maximum: 0, percent: 0 },
        },
        DdcMonitor {
            info: ddc_info("i2c-5", Some("Second"), Some("S2"), None),
            reading: DdcBrightnessReading::Read { maximum: 100, percent: 80 },
        },
        DdcMonitor {
            info: ddc_info("i2c-7", Some("Third"), Some("T3"), None),
            reading: DdcBrightnessReading::Failed {
                message: "input/output error".to_string(),
            },
        },
    ];
    let handles = PhysicalDisplayManagerLinux::enumerate_ddc_handles(monitors);
    assert_eq!(handles.len(), 2);
    assert_eq!(handles[0].metadata.name, "Second");
    assert_eq!(handles[0].backend, LinuxPhysicalBackend::Ddc { display_index: 1 });
    assert_eq!(handles[0].state.brightness.value(), 80);
    assert_eq!(handles[1].metadata.name, "Third");
    assert_eq!(handles[1].backend, LinuxPhysicalBackend::Ddc { display_index: 2 });
    assert_eq!(handles[1].state.brightness.value(), 0);
}

#[test]
fn backlight_handle_uses_directory_name_and_empty_serial() {
    let device = backlight_device(DeviceClass::Backlight, "intel_backlight", 25);
    let h = backlight_handle_from_device(device).unwrap();
    assert_eq!(h.metadata.name, "intel_backlight");
    assert_eq!(h.metadata.path, "/sys/class/backlight/intel_backlight");
    assert_eq!(h.metadata.serial_number, Some(String::new()));
    assert_eq!(h.state.brightness.value(), 25);
    assert_eq!(
        h.backend,
        LinuxPhysicalBackend::Backlight {
            path: "/sys/class/backlight/intel_backlight".to_string()
        }
    );
}

#[test]
fn enumerating_backlights_handles_missing_directory_and_failures() {
    let listed = PhysicalDisplayManagerLinux::enumerate_backlight_handles(Ok(vec![
        backlight_device(DeviceClass::Backlight, "intel_backlight", 25),
        backlight_device(DeviceClass::Backlight, "acpi_video0", 70),
    ]))
    .unwrap();
    assert_eq!(listed.len(), 2);
    assert_eq!(listed[0].metadata.name, "intel_backlight");
    assert_eq!(listed[1].state.brightness.value(), 70);

    let missing = PhysicalDisplayManagerLinux::enumerate_backlight_handles(Err(
        BacklightListError::MissingClassDirectory,
    ))
    .unwrap();
    assert!(missing.is_empty());

    let failed = PhysicalDisplayManagerLinux::enumerate_backlight_handles(Err(
        BacklightListError::Other {
            message: "permission denied".to_string(),
        },
    ));
    assert_eq!(
        failed,
        Err(PhysicalDisplayQueryError::BacklightQuery {
            message: "permission denied".to_string()
        })
    );
}

#[test]
fn query_handles_sorts_by_metadata_and_query_keeps_order() {
    let ddc = vec![
        handle("b", "/dev/i2c-7", LinuxPhysicalBackend::Ddc { display_index: 0 }),
        handle("a", "/dev/i2c-9", LinuxPhysicalBackend::Ddc { display_index: 1 }),
    ];
    let backlight = vec![handle(
        "a",
        "/dev/i2c-8",
        LinuxPhysicalBackend::Backlight {
            path: "/sys/class/backlight/x".to_string(),
        },
    )];
    let sorted = PhysicalDisplayManagerLinux::query_handles(ddc, backlight);
    let names: Vec<(&str, &str)> = sorted
        .iter()
        .map(|h| (h.metadata.name.as_str(), h.metadata.path.as_str()))
        .collect();
    assert_eq!(names, vec![("a", "/dev/i2c-8"), ("a", "/dev/i2c-9"), ("b", "/dev/i2c-7")]);

    let displays = PhysicalDisplayManagerLinux::query(sorted);
    assert_eq!(displays.len(), 3);
    assert_eq!(displays[0].metadata.path, "/dev/i2c-8");
    assert_eq!(displays[2].metadata.name, "b");
}

#[test]
fn apply_plan_routes_updates_by_backend() {
    let handles = vec![
        handle("dell", "i2c-7", LinuxPhysicalBackend::Ddc { display_index: 3 }),
        handle(
            "intel_backlight",
            "/sys/class/backlight/intel_backlight",
            LinuxPhysicalBackend::Backlight {
                path: "/sys/class/backlight/intel_backlight".to_string(),
            },
        ),
    ];
    let updates = vec![
        brightness_update("dell", 40),
        brightness_update("intel_backlight", 60),
        brightness_update("nobody", 10),
    ];
    let plan = PhysicalDisplayManagerLinux::apply_display_updates(updates, &handles, false);
    assert_eq!(plan.remaining.len(), 1);
    assert_eq!(plan.remaining[0].id.name, Some("nobody".to_string()));
    assert_eq!(plan.ddc_updates.len(), 1);
    assert_eq!(plan.ddc_updates[0].display_index, 3);
    assert_eq!(plan.ddc_updates[0].brightness, Some(40));
    assert_eq!(plan.backlight_updates.len(), 1);
    assert_eq!(plan.backlight_updates[0].path, "/sys/class/backlight/intel_backlight");
    assert_eq!(plan.backlight_updates[0].brightness, Some(60));
}

#[test]
fn validating_plans_no_writes() {
    let handles = vec![handle("dell", "i2c-7", LinuxPhysicalBackend::Ddc { display_index: 0 })];
    let plan = PhysicalDisplayManagerLinux::apply_display_updates(
        vec![brightness_update("dell", 40), brightness_update("other", 5)],
        &handles,
        true,
    );
    assert!(plan.ddc_updates.is_empty());
    assert!(plan.backlight_updates.is_empty());
    assert_eq!(plan.remaining.len(), 1);
    assert_eq!(plan.remaining[0].id.name, Some("other".to_string()));
}

fn ddc_update(name: &str, brightness: Option<u32>, display_index: usize) -> DdcApplyUpdate {
    DdcApplyUpdate {
        id: inner(name, "S", "i2c"),
        brightness,
        display_index,
    }
}

#[test]
fn each_ddc_monitor_is_written_once() {
    let updates = vec![
        ddc_update("a", Some(10), 0),
        ddc_update("b", None, 1),
        ddc_update("c", Some(20), 0),
        ddc_update("d", Some(30), 5),
        ddc_update("e", Some(40), 1),
    ];
    let attempts = PhysicalDisplayManagerLinux::ddc_attempts(&updates, 2);
    assert_eq!(attempts, vec![0, 4]);
}

#[test]
fn ddc_updates_that_were_not_written_are_handed_back() {
    let updates = vec![
        ddc_update("a", Some(10), 0),
        ddc_update("b", None, 1),
        ddc_update("c", Some(20), 0),
        ddc_update("d", Some(30), 5),
        ddc_update("e", Some(40), 1),
    ];
    let written = vec![true, false, false, false, false];
    let remaining = PhysicalDisplayManagerLinux::ddc_remaining(&updates, 2, &written);
    let names: Vec<Option<String>> = remaining.iter().map(|u| u.id.name.clone()).collect();
    assert_eq!(
        names,
        vec![Some("c".to_string()), Some("d".to_string()), Some("e".to_string())]
    );
    assert_eq!(remaining[0], display_update_with_brightness(id("c", Some("S")), 20));

    let all_written = vec![true, true, true, true, true];
    let remaining = PhysicalDisplayManagerLinux::ddc_remaining(&updates, 2, &all_written);
    assert_eq!(remaining.len(), 2);
}

#[test]
fn backlight_updates_that_were_not_applied_are_handed_back() {
    let updates = vec![
        BacklightApplyUpdate {
            id: inner("x", "", "/sys/x"),
            brightness: Some(50),
            path: "/sys/x".to_string(),
        },
        BacklightApplyUpdate {
            id: inner("y", "", "/sys/y"),
            brightness: None,
            path: "/sys/y".to_string(),
        },
        BacklightApplyUpdate {
            id: inner("z", "", "/sys/z"),
            brightness: Some(70),
            path: "/sys/z".to_string(),
        },
    ];
    let remaining = PhysicalDisplayManagerLinux::backlight_remaining(&updates, &vec![true]);
    assert_eq!(remaining.len(), 1);
    assert_eq!(remaining[0], display_update_with_brightness(id("z", Some("")), 70));
}

#[test]
fn backlight_request_caps_percent_and_targets_path() {
    let update = BacklightApplyUpdate {
        id: inner("intel_backlight", "", "/sys/x"),
        brightness: Some(250),
        path: "/sys/class/backlight/intel_backlight".to_string(),
    };
    let request = backlight_request(&update).unwrap();
    assert_eq!(request.brightness, Some(BrightnessUpdate::Percent(100)));
    assert_eq!(request.id.class, Some(DeviceClass::Backlight));
    assert_eq!(request.id.id, None);
    assert_eq!(
        request.id.path,
        Some("/sys/class/backlight/intel_backlight".to_string())
    );
    let half = BacklightApplyUpdate {
        id: inner("intel_backlight", "", "/sys/x"),
        brightness: Some(50),
        path: "/sys/x".to_string(),
    };
    assert_eq!(
        backlight_request(&half).unwrap().brightness,
        Some(BrightnessUpdate::Percent(50))
    );
    let none = BacklightApplyUpdate {
        id: inner("intel_backlight", "", "/sys/x"),
        brightness: None,
        path: "/sys/x".to_string(),
    };
    assert_eq!(backlight_request(&none), None);
}

#[test]
fn handle_id_uses_name_serial_and_path() {
    let h = handle("intel_backlight", "/sys/x", LinuxPhysicalBackend::Ddc { display_index: 0 });
    let expected = DisplayIdentifierInner {
        outer: id("intel_backlight", Some("")),
        path: Some("/sys/x".to_string()),
        gdi_device_id: None,
    };
    assert_eq!(h.id(), expected);
    assert_eq!(id_from_metadata(&h.metadata), expected);
}

#[test]
fn apply_errors_are_classified_by_message() {
    assert_eq!(
        classify_apply_error("d".to_string(), "Permission denied (os error 13)".to_string()),
        PhysicalDisplayApplyError::PermissionDenied {
            display_id: "d".to_string()
        }
    );
    assert_eq!(
        classify_apply_error("d".to_string(), "open /dev/i2c-7 failed".to_string()),
        PhysicalDisplayApplyError::MissingI2cAccess {
            display_id: "d".to_string()
        }
    );
    assert_eq!(
        classify_apply_error("d".to_string(), "No such file or directory".to_string()),
        PhysicalDisplayApplyError::MissingI2cAccess {
            display_id: "d".to_string()
        }
    );
    assert_eq!(
        classify_apply_error("d".to_string(), "VCP feature Unsupported".to_string()),
        PhysicalDisplayApplyError::UnsupportedMonitor {
            display_id: "d".to_string(),
            message: "VCP feature Unsupported".to_string()
        }
    );
    assert_eq!(
        classify_apply_error("d".to_string(), "checksum mismatch".to_string()),
        PhysicalDisplayApplyError::DdcOperation {
            display_id: "d".to_string(),
            message: "checksum mismatch".to_string()
        }
    );
}

#[test]
fn io_errors_are_recognised_case_insensitively() {
    assert!(is_io_error("Input/Output Error"));
    assert!(is_io_error("I/O failed (OS ERROR 5)"));
    assert!(!is_io_error("os error 13"));
    assert!(!is_io_error(""));
}

#[test]
fn query_error_messages() {
    assert_eq!(
        PhysicalDisplayQueryError::Enumerate.to_string(),
        "failed to enumerate DDC displays"
    );
    assert_eq!(
        PhysicalDisplayQueryError::MissingI2cAccess {
            display_id: "i2c-7".to_string()
        }
        .to_string(),
        "missing i2c access for display 'i2c-7'"
    );
    assert_eq!(
        PhysicalDisplayQueryError::PermissionDenied {
            display_id: "i2c-7".to_string()
        }
        .to_string(),
        "insufficient permissions for display 'i2c-7'"
    );
    assert_eq!(
        PhysicalDisplayQueryError::UnsupportedMonitor {
            display_id: "i2c-7".to_string(),
            message: "no".to_string()
        }
        .to_string(),
        "display 'i2c-7' does not expose brightness via VCP 0x10: no"
    );
    assert_eq!(
        PhysicalDisplayQueryError::DdcOperation {
            display_id: "i2c-7".to_string(),
            message: "busy".to_string()
        }
        .to_string(),
        "ddc operation failed for display 'i2c-7': busy"
    );
    assert_eq!(
        PhysicalDisplayQueryError::BacklightQuery {
            message: "gone".to_string()
        }
        .to_string(),
        "failed to query Linux backlight devices: gone"
    );
}

#[test]
fn apply_error_messages() {
    assert_eq!(
        PhysicalDisplayApplyError::Query {
            source: PhysicalDisplayQueryError::Enumerate
        }
        .to_string(),
        "failed to enumerate DDC displays"
    );
    assert_eq!(
        PhysicalDisplayApplyError::UnsupportedMonitor {
            display_id: "x".to_string(),
            message: "m".to_string()
        }
        .to_string(),
        "display 'x' does not expose brightness via VCP 0x10: m"
    );
    assert_eq!(
        PhysicalDisplayApplyError::PermissionDenied {
            display_id: "x".to_string()
        }
        .to_string(),
        "insufficient permissions for display 'x'"
    );
    assert_eq!(
        PhysicalDisplayApplyError::MissingI2cAccess {
            display_id: "x".to_string()
        }
        .to_string(),
        "missing i2c access for display 'x'"
    );
    assert_eq!(
        PhysicalDisplayApplyError::DdcOperation {
            display_id: "x".to_string(),
            message: "timed out".to_string()
        }
        .to_string(),
        "failed to set brightness for display 'x': timed out"
    );
    assert_eq!(
        PhysicalDisplayApplyError::BacklightOperation {
            display_id: "x".to_string(),
            message: "denied".to_string()
        }
        .to_string(),
        "failed to set backlight brightness for display 'x': denied"
    );
}

#[test]
fn device_identifiers_restrict_by_class_id_and_path() {
    let device = backlight_device(DeviceClass::Backlight, "intel_backlight", 25);
    assert!(DeviceIdentifier::default().is_subset(&device.metadata));
    assert!(DeviceIdentifier {
        class: Some(DeviceClass::Backlight),
        id: Some("intel_backlight".to_string()),
        path: None,
    }
    .is_subset(&device.metadata));
    assert!(!DeviceIdentifier {
        class: Some(DeviceClass::Leds),
        id: None,
        path: None,
    }
    .is_subset(&device.metadata));
    assert!(!DeviceIdentifier {
        class: None,
        id: None,
        path: Some("/sys/other".to_string()),
    }
    .is_subset(&device.metadata));
}

#[test]
fn device_classes_and_paths() {
    assert_eq!(DeviceClass::Backlight.directory_name(), "backlight");
    assert_eq!(DeviceClass::Leds.directory_name(), "leds");
    let device = backlight_device(DeviceClass::Backlight, "intel_backlight", 25);
    assert_eq!(
        device.path(),
        std::path::PathBuf::from("/sys/class/backlight/intel_backlight")
    );
}

#[test]
fn backlight_percentages_round_to_nearest() {
    assert_eq!(brightness_percent(300, 1200), 25);
    assert_eq!(brightness_percent(1, 3), 33);
    assert_eq!(brightness_percent(2, 3), 67);
    assert_eq!(brightness_percent(5, 0), 0);
    assert_eq!(brightness_percent(1300, 1200), 100);
    assert_eq!(raw_brightness(50, 400), 200);
    assert_eq!(raw_brightness(100, 937), 937);
    assert_eq!(raw_brightness(200, 937), 937);
    assert_eq!(raw_brightness(33, 3), 1);
    assert_eq!(raw_brightness(0, 255), 0);
}

#[test]
fn brightness_writes_are_capped_and_need_a_maximum() {
    assert_eq!(displays::physical_linux::normalized_brightness(150), 100);
    assert_eq!(displays::physical_linux::normalized_brightness(0), 0);
    assert_eq!(displays::physical_linux::normalized_brightness(42), 42);
    assert_eq!(
        displays::physical_linux::check_brightness_maximum("i2c-7".to_string(), 0),
        Err(PhysicalDisplayApplyError::UnsupportedMonitor {
            display_id: "i2c-7".to_string(),
            message: "reported brightness max value is 0".to_string()
        })
    );
    assert_eq!(
        displays::physical_linux::check_brightness_maximum("i2c-7".to_string(), 100),
        Ok(())
    );
}

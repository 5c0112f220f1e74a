use displays::backlight::{
    brightness_percent, percent_write_target, raw_brightness, BrightnessUpdate, Device, DeviceClass,
    DeviceIdentifier, DeviceMetadata, DeviceState, DeviceUpdate,
};
use displays::physical_linux::{
    backlight_request, BacklightApplyUpdate, BacklightListError, PhysicalDisplayManagerLinux,
};
use displays::types::DisplayIdentifier;

fn sysfs_device(class: DeviceClass, name: &str, brightness_raw: u32, max_brightness_raw: u32) -> Device {
    let directory = match class {
        DeviceClass::Backlight => "backlight",
        DeviceClass::Leds => "leds",
    };
    Device {
        metadata: DeviceMetadata {
            class,
            id: name.to_string(),
            path: format!("/sys/class/{directory}/{name}"),
        },
        state: DeviceState {
            brightness_raw,
            max_brightness_raw,
            actual_brightness_raw: Some(brightness_raw),
            brightness_percent: brightness_percent(brightness_raw, max_brightness_raw),
        },
    }
}

#[test]
fn enumerate_backlights_ignores_missing_class_directory() {
    let displays = PhysicalDisplayManagerLinux::enumerate_backlight_handles(Err(
        BacklightListError::MissingClassDirectory,
    ))
    .unwrap();

    assert!(displays.is_empty());
}

#[test]
fn enumerate_backlights_only_surfaces_backlight_devices() {
    let backlight = sysfs_device(DeviceClass::Backlight, "intel_backlight", 300, 1200);
    let led = sysfs_device(DeviceClass::Leds, "asus::kbd_backlight", 1, 3);
    let displays =
        PhysicalDisplayManagerLinux::enumerate_backlight_handles(Ok(vec![backlight, led])).unwrap();

    assert_eq!(displays.len(), 1);
    assert_eq!(displays[0].metadata.name, "intel_backlight");
    assert_eq!(displays[0].metadata.serial_number, Some(String::new()));
    assert_eq!(displays[0].state.brightness.value(), 25);
}

#[test]
fn apply_backlight_updates_writes_percent_brightness() {
    let device = sysfs_device(DeviceClass::Backlight, "intel_backlight", 100, 400);
    let handles = PhysicalDisplayManagerLinux::enumerate_backlight_handles(Ok(vec![device])).unwrap();
    let requested = DisplayIdentifier {
        name: Some("intel_backlight".to_string()),
        serial_number: None,
    };
    let matched = handles
        .iter()
        .find(|handle| requested.is_subset(&handle.id().outer))
        .unwrap();

    let update = BacklightApplyUpdate {
        id: matched.id(),
        brightness: Some(50),
        path: matched.metadata.path.clone(),
    };
    let request = backlight_request(&update).unwrap();
    assert_eq!(request.brightness, Some(BrightnessUpdate::Percent(50)));
    let (directory, percent) = percent_write_target(&request).unwrap();
    assert_eq!(directory, "/sys/class/backlight/intel_backlight");

    let remaining = PhysicalDisplayManagerLinux::backlight_remaining(&vec![update], &vec![true]);

    assert!(remaining.is_empty());
    assert_eq!(raw_brightness(percent, 400), 200);
}

#[test]
fn only_absolute_percent_requests_with_a_directory_are_written() {
    let with_path = |brightness| DeviceUpdate {
        id: DeviceIdentifier {
            class: Some(DeviceClass::Backlight),
            id: None,
            path: Some("/sys/class/backlight/acpi_video0".to_string()),
        },
        brightness,
    };
    assert_eq!(
        percent_write_target(&with_path(Some(BrightnessUpdate::Percent(30)))),
        Some(("/sys/class/backlight/acpi_video0".to_string(), 30))
    );
    assert_eq!(percent_write_target(&with_path(Some(BrightnessUpdate::Raw(30)))), None);
    assert_eq!(percent_write_target(&with_path(None)), None);
    let no_path = DeviceUpdate {
        id: DeviceIdentifier { class: None, id: None, path: None },
        brightness: Some(BrightnessUpdate::Percent(30)),
    };
    assert_eq!(percent_write_target(&no_path), None);
}

#[test]
fn led_devices_alone_surface_no_backlight() {
    let led = sysfs_device(DeviceClass::Leds, "input3::capslock", 0, 1);
    let displays = PhysicalDisplayManagerLinux::enumerate_backlight_handles(Ok(vec![led])).unwrap();
    assert!(displays.is_empty());
}

use displays::matching::{logical_connector_name, take_matching_physical_display};
use displays::types::{LogicalDisplay, LogicalDisplayMetadata, PhysicalDisplay, PhysicalDisplayMetadata};

fn logical(name: &str, path: &str, manufacturer: Option<&str>, model: Option<&str>, serial: Option<&str>) -> LogicalDisplay {
    LogicalDisplay {
        metadata: LogicalDisplayMetadata {
            name: name.to_string(),
            path: path.to_string(),
            manufacturer: manufacturer.map(str::to_string),
            model: model.map(str::to_string),
            serial_number: serial.map(str::to_string),
            ..Default::default()
        },
        ..Default::default()
    }
}

fn physical(name: &str, path: &str, manufacturer: Option<&str>, model: Option<&str>, serial: Option<&str>) -> PhysicalDisplay {
    PhysicalDisplay {
        metadata: PhysicalDisplayMetadata {
            name: name.to_string(),
            path: path.to_string(),
            manufacturer: manufacturer.map(str::to_string),
            model: model.map(str::to_string),
            serial_number: serial.map(str::to_string),
        },
        ..Default::default()
    }
}

#[test]
fn linux_matches_backlight_by_connector_name() {
    let logical = logical(
        "LG Display 0x07C6",
        "wayland:wlr:eDP-1",
        Some("LG Display"),
        Some("0x07C6"),
        Some("unknown"),
    );
    let expected = physical(
        "intel_backlight",
        "/sys/devices/pci0000:00/0000:00:02.0/drm/card0/card0-eDP-1/intel_backlight",
        None,
        None,
        None,
    );
    let mut physical = vec![expected.clone()];

    let matched = take_matching_physical_display(&logical, &mut physical);

    assert_eq!(matched, Some(expected));
    assert!(physical.is_empty());
}

#[test]
fn linux_does_not_match_ambiguous_connectors() {
    let logical = logical("LG Display 0x07C6", "wayland:wlr:eDP-1", Some("LG Display"), Some("0x07C6"), None);
    let mut physical = vec![
        physical(
            "intel_backlight",
            "/sys/devices/pci0000:00/0000:00:02.0/drm/card0/card0-eDP-1/intel_backlight",
            None,
            None,
            None,
        ),
        physical(
            "acpi_video0",
            "/sys/devices/LNXSYSTM:00/LNXSYBUS:00/ACPI0008:00/backlight/acpi_video0/drm/card0/card0-eDP-1",
            None,
            None,
            None,
        ),
    ];

    let matched = take_matching_physical_display(&logical, &mut physical);

    assert_eq!(matched, None);
    assert_eq!(physical.len(), 2);
}

#[test]
fn linux_falls_back_to_name_matching_when_connector_is_unavailable() {
    let logical = logical("LG Display 0x07C6", "wayland:wlr:unknown", Some("LG Display"), Some("0x07C6"), None);
    let expected = physical("LG Display 0x07C6", "/dev/i2c-7", None, None, None);
    let mut physical = vec![expected.clone()];

    let matched = take_matching_physical_display(&logical, &mut physical);

    assert_eq!(matched, Some(expected));
    assert!(physical.is_empty());
}

#[test]
fn linux_extracts_connector_from_non_wlr_paths() {
    let logical = LogicalDisplay {
        metadata: LogicalDisplayMetadata {
            path: "wayland:gnome:eDP-1".to_string(),
            ..Default::default()
        },
        ..Default::default()
    };

    assert_eq!(logical_connector_name(&logical), Some("eDP-1".chars().collect::<Vec<char>>()));
}

#[test]
fn linux_matches_by_real_serial_when_connector_missing() {
    let logical = logical(
        "Dell U2723QE",
        "wayland:wlr:unknown",
        Some("Dell"),
        Some("U2723QE"),
        Some("ABC123"),
    );
    let expected = physical("U2723QE", "/dev/i2c-7", Some("Dell"), Some("U2723QE"), Some("ABC123"));
    let mut physical = vec![expected.clone()];

    let matched = take_matching_physical_display(&logical, &mut physical);

    assert_eq!(matched, Some(expected));
    assert!(physical.is_empty());
}

#[test]
fn linux_treats_missing_serial_values_as_unavailable() {
    let logical = logical("Dell U2723QE", "wayland:wlr:unknown", Some("Dell"), Some("U2723QE"), None);
    let expected = physical("U2723QE", "/dev/i2c-7", Some("Dell"), Some("U2723QE"), None);
    let mut physical = vec![expected.clone()];

    let matched = take_matching_physical_display(&logical, &mut physical);

    assert_eq!(matched, Some(expected));
    assert!(physical.is_empty());
}

#[test]
fn linux_matches_by_manufacturer_and_model_when_unique() {
    let logical = logical("Dell Display", "wayland:wlr:unknown", Some("Dell"), Some("U2723QE"), None);
    let expected = physical("monitor-1", "/dev/i2c-7", Some("Dell"), Some("U2723QE"), None);
    let mut physical = vec![
        expected.clone(),
        physical("monitor-2", "/dev/i2c-8", Some("Dell"), Some("P2723DE"), None),
    ];

    let matched = take_matching_physical_display(&logical, &mut physical);

    assert_eq!(matched, Some(expected));
    assert_eq!(physical.len(), 1);
}

#[test]
fn linux_does_not_match_ambiguous_manufacturer_and_model_candidates() {
    let logical = logical("Dell Display", "wayland:wlr:unknown", Some("Dell"), Some("U2723QE"), None);
    let mut physical = vec![
        physical("monitor-1", "/dev/i2c-7", Some("Dell"), Some("U2723QE"), None),
        physical("monitor-2", "/dev/i2c-8", Some("Dell"), Some("U2723QE"), None),
    ];

    let matched = take_matching_physical_display(&logical, &mut physical);

    assert_eq!(matched, None);
    assert_eq!(physical.len(), 2);
}

#[test]
fn linux_uses_physical_manufacturer_model_as_name_candidate() {
    let logical = logical("Dell U2723QE", "wayland:wlr:unknown", None, None, None);
    let expected = physical("i2c-display", "/dev/i2c-7", Some("Dell"), Some("U2723QE"), None);
    let mut physical = vec![expected.clone()];

    let matched = take_matching_physical_display(&logical, &mut physical);

    assert_eq!(matched, Some(expected));
    assert!(physical.is_empty());
}

#[test]
fn linux_does_not_fall_through_when_connector_candidates_are_ambiguous() {
    let logical = logical("intel_backlight", "wayland:wlr:eDP-1", Some("LG Display"), Some("0x07C6"), None);
    let mut physical = vec![
        physical(
            "intel_backlight",
            "/sys/devices/pci0000:00/0000:00:02.0/drm/card0/card0-eDP-1/intel_backlight",
            Some("LGD"),
            Some("0x07C6"),
            None,
        ),
        physical(
            "intel_backlight",
            "/sys/devices/LNXSYSTM:00/LNXSYBUS:00/ACPI0008:00/backlight/acpi_video0/drm/card0/card0-eDP-1",
            Some("LGD"),
            Some("0x07C6"),
            None,
        ),
    ];

    let matched = take_matching_physical_display(&logical, &mut physical);

    assert_eq!(matched, None);
    assert_eq!(physical.len(), 2);
}

#[test]
fn linux_prefers_manufacturer_model_over_name_only_match() {
    let logical = logical("Shared Name", "wayland:wlr:unknown", Some("Dell"), Some("U2723QE"), None);
    let expected = physical("monitor-1", "/dev/i2c-7", Some("Dell"), Some("U2723QE"), None);
    let mut physical = vec![physical("Shared Name", "/dev/i2c-8", None, None, None), expected.clone()];

    let matched = take_matching_physical_display(&logical, &mut physical);

    assert_eq!(matched, Some(expected));
    assert_eq!(physical.len(), 1);
}

#[test]
fn linux_treats_missing_manufacturer_and_model_as_unavailable() {
    let logical = logical("Shared Name", "wayland:wlr:unknown", None, None, None);
    let expected = physical("Shared Name", "/dev/i2c-7", Some("Dell"), Some("U2723QE"), None);
    let mut physical = vec![expected.clone()];

    let matched = take_matching_physical_display(&logical, &mut physical);

    assert_eq!(matched, Some(expected));
    assert!(physical.is_empty());
}

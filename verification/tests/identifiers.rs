use displays::matching::{
    drm_connector_name, is_connector_name, logical_name_candidates, normalized_name,
    normalized_present_value, physical_connector_name, physical_name_candidates,
    push_unique_candidate, take_physical_display_by_path_prefix, unique_match_index,
};
use displays::text::{decimal_string, fnv1a_str, hex16_string};
use displays::types::{
    Brightness, DisplayIdentifier, LogicalDisplay, LogicalDisplayMetadata, PhysicalDisplay,
    PhysicalDisplayMetadata,
};

fn id(name: Option<&str>, serial: Option<&str>) -> DisplayIdentifier {
    DisplayIdentifier {
        name: name.map(str::to_string),
        serial_number: serial.map(str::to_string),
    }
}

#[test]
fn subset_matching_needs_every_requested_field() {
    let dell = id(Some("Dell"), Some("ABC"));
    let by_name = id(Some("Dell"), None);
    let other = id(Some("LG"), Some("ABC"));
    let empty = id(None, None);
    assert!(dell.is_subset(&dell));
    assert!(by_name.is_subset(&dell));
    assert!(!dell.is_subset(&by_name));
    assert!(!other.is_subset(&dell));
    assert!(!dell.is_subset(&other));
    assert!(empty.is_subset(&dell));
    assert!(!dell.is_subset(&empty));
    assert!(id(None, Some("ABC")).is_subset(&dell));
    assert!(!id(None, Some("ABC")).is_subset(&by_name));
    assert!(dell.same_as(&dell.clone()));
    assert!(!dell.same_as(&by_name));
}

#[test]
fn brightness_wraps_its_percentage() {
    assert_eq!(Brightness::new(73).value(), 73);
    assert_eq!(Brightness::default().value(), 0);
}

#[test]
fn names_are_normalized_by_case_and_whitespace() {
    assert_eq!(normalized_name("  DELL\tU2720Q  "), "dell u2720q");
    assert_eq!(normalized_name("LG   Display"), "lg display");
    assert_eq!(normalized_name(""), "");
    assert_eq!(normalized_present_value(Some("  ABC ")), Some("abc".to_string()));
    assert_eq!(normalized_present_value(Some("   ")), None);
    assert_eq!(normalized_present_value(None), None);
}

#[test]
fn connector_names_need_a_dash_and_digits() {
    assert!(is_connector_name("eDP-1"));
    assert!(is_connector_name("HDMI-A-12"));
    assert!(!is_connector_name("eDP-"));
    assert!(!is_connector_name("-1"));
    assert!(!is_connector_name("unknown"));
    assert_eq!(drm_connector_name("card0-eDP-1"), Some("eDP-1".to_string()));
    assert_eq!(drm_connector_name("card12--DP-3"), Some("DP-3".to_string()));
    assert_eq!(drm_connector_name("card-eDP-1"), None);
    assert_eq!(drm_connector_name("cardX-eDP-1"), None);
    assert_eq!(drm_connector_name("intel_backlight"), None);
}

fn physical(name: &str, path: &str, manufacturer: Option<&str>, model: Option<&str>) -> PhysicalDisplay {
    PhysicalDisplay {
        metadata: PhysicalDisplayMetadata {
            name: name.to_string(),
            path: path.to_string(),
            manufacturer: manufacturer.map(str::to_string),
            model: model.map(str::to_string),
            serial_number: None,
        },
        ..Default::default()
    }
}

fn logical(name: &str, path: &str, manufacturer: Option<&str>, model: Option<&str>) -> LogicalDisplay {
    LogicalDisplay {
        metadata: LogicalDisplayMetadata {
            name: name.to_string(),
            path: path.to_string(),
            manufacturer: manufacturer.map(str::to_string),
            model: model.map(str::to_string),
            ..Default::default()
        },
        ..Default::default()
    }
}

#[test]
fn physical_connector_comes_from_drm_path_component() {
    let p = physical(
        "intel_backlight",
        "/sys/devices/pci0000:00/0000:00:02.0/drm/card0/card0-eDP-1/intel_backlight",
        None,
        None,
    );
    assert_eq!(physical_connector_name(&p), Some("eDP-1".chars().collect()));
    assert_eq!(physical_connector_name(&physical("x", "/dev/i2c-7", None, None)), None);
}

#[test]
fn name_candidates_cover_name_and_manufacturer_model() {
    let l = logical("Dell U2723QE", "wayland:wlr:unknown", Some(" Dell "), Some("U2723QE"));
    assert_eq!(
        logical_name_candidates(&l),
        vec!["Dell U2723QE".to_string(), "u2723qe".to_string()]
    );
    let p = physical("i2c-display", "/dev/i2c-7", Some("Dell"), Some("U2723QE"));
    assert_eq!(
        physical_name_candidates(&p),
        vec!["i2c-display".to_string(), "dell u2723qe".to_string(), "u2723qe".to_string()]
    );
    let bare = physical("only", "/dev/i2c-1", None, Some("M"));
    assert_eq!(physical_name_candidates(&bare), vec!["only".to_string()]);
}

#[test]
fn candidates_are_pushed_once() {
    let mut candidates = vec!["a".to_string()];
    push_unique_candidate(&mut candidates, "a".to_string());
    push_unique_candidate(&mut candidates, "  A ".to_string());
    push_unique_candidate(&mut candidates, "b".to_string());
    push_unique_candidate(&mut candidates, "B".to_string());
    push_unique_candidate(&mut candidates, "   ".to_string());
    assert_eq!(candidates, vec!["a".to_string(), "b".to_string()]);
}

#[test]
fn unique_index_needs_exactly_one_match() {
    assert_eq!(unique_match_index(&vec![false, true, false]), Some(1));
    assert_eq!(unique_match_index(&vec![true, true]), None);
    assert_eq!(unique_match_index(&vec![false, false]), None);
    assert_eq!(unique_match_index(&vec![]), None);
}

#[test]
fn path_prefix_matching_takes_the_first_prefix() {
    let l = logical("Monitor", "\\\\?\\DISPLAY#DEL#UID1", None, None);
    let mut remaining = vec![
        physical("a", "\\\\?\\DISPLAY#LG", None, None),
        physical("b", "\\\\?\\DISPLAY#DEL", None, None),
        physical("c", "\\\\?\\DISPLAY#DEL#UID", None, None),
    ];
    let taken = take_physical_display_by_path_prefix(&l, &mut remaining).unwrap();
    assert_eq!(taken.metadata.name, "b");
    assert_eq!(remaining.len(), 2);
    assert_eq!(remaining[1].metadata.name, "c");
}

#[test]
fn number_formatting() {
    assert_eq!(decimal_string(0), "0");
    assert_eq!(decimal_string(4294967295), "4294967295");
    assert_eq!(hex16_string(0), "0000000000000000");
    assert_eq!(hex16_string(0xdead_beef), "00000000deadbeef");
    assert_eq!(hex16_string(fnv1a_str("a")), "44bd8ad473cd9906");
}

use hyprpier::dock::{detect_docks, get_security_mode, list_all_devices, SysfsEntry};
use hyprpier::thunderbolt::{get_controller_pci_address, PciEntry};

fn entry(name: &str) -> SysfsEntry {
    SysfsEntry {
        entry_name: String::from(name),
        device_name: Some(format!("dev {}", name)),
        vendor_name: Some(String::from("Vendor")),
        unique_id: Some(format!("uuid-{}", name)),
    }
}

#[test]
fn domain_entries_are_excluded_and_roles_classified() {
    let entries = vec![entry("domain0"), entry("0-0"), entry("0-1")];
    let devices = list_all_devices(entries);
    assert_eq!(devices.len(), 2);
    assert_eq!(devices[0].device_id, "0-0");
    assert!(devices[0].is_host);
    assert!(!devices[0].is_dock());
    assert_eq!(devices[1].device_id, "0-1");
    assert!(!devices[1].is_host);
    assert!(devices[1].is_dock());
}

#[test]
fn missing_attributes_get_defaults() {
    let entries = vec![SysfsEntry {
        entry_name: String::from("1-3"),
        device_name: None,
        vendor_name: None,
        unique_id: None,
    }];
    let devices = list_all_devices(entries);
    assert_eq!(devices.len(), 1);
    assert_eq!(devices[0].name, "Unknown");
    assert_eq!(devices[0].uuid, "");
    assert_eq!(devices[0].vendor, None);
}

#[test]
fn devices_are_sorted_by_position_key() {
    let entries = vec![entry("1-0"), entry("0-3"), entry("0-1")];
    let devices = list_all_devices(entries);
    let ids: Vec<&str> = devices.iter().map(|d| d.device_id.as_str()).collect();
    assert_eq!(ids, vec!["0-1", "0-3", "1-0"]);
}

#[test]
fn detect_docks_keeps_only_peripherals_in_order() {
    let entries = vec![entry("0-0"), entry("0-3"), entry("0-1"), entry("domain1")];
    let docks = detect_docks(list_all_devices(entries));
    let ids: Vec<&str> = docks.iter().map(|d| d.device_id.as_str()).collect();
    assert_eq!(ids, vec!["0-1", "0-3"]);
}

#[test]
fn security_mode_defaults_to_unknown() {
    assert_eq!(get_security_mode(None), "unknown");
    assert_eq!(get_security_mode(Some(String::from("user"))), "user");
}

#[test]
fn controller_is_first_thunderbolt_class_with_domain() {
    let entries = vec![
        PciEntry {
            name: String::from("0000:00:01.0"),
            class: Some(String::from("0x030000")),
            has_domain0: false,
        },
        PciEntry {
            name: String::from("0000:04:00.0"),
            class: Some(String::from("0x088000")),
            has_domain0: false,
        },
        PciEntry {
            name: String::from("0000:05:00.0"),
            class: Some(String::from("0x088000")),
            has_domain0: true,
        },
    ];
    assert_eq!(get_controller_pci_address(&entries).as_deref(), Some("0000:05:00.0"));
}

#[test]
fn no_controller_yields_none() {
    let entries = vec![PciEntry {
        name: String::from("0000:00:01.0"),
        class: None,
        has_domain0: true,
    }];
    assert_eq!(get_controller_pci_address(&entries), None);
}

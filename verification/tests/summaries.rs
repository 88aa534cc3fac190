use hyprpier::dock::ThunderboltDevice;
use hyprpier::metadata::{DockBinding, Metadata};
use hyprpier::profile::Profile;
use hyprpier::status::{build_status_line, profile_info};

fn dock(name: &str, uuid: &str) -> ThunderboltDevice {
    ThunderboltDevice {
        name: String::from(name),
        uuid: String::from(uuid),
        vendor: None,
        is_host: false,
        device_id: String::from("0-1"),
    }
}

#[test]
fn status_line_with_profile_and_dock() {
    let mut m = Metadata::default();
    m.set_active(Some(String::from("work")), 1);
    let docks = vec![dock("CalDigit TS4", "u-1")];
    assert_eq!(build_status_line(&m, &docks), "Active: work  |  Dock: CalDigit TS4");
}

#[test]
fn status_line_with_profile_only() {
    let mut m = Metadata::default();
    m.set_active(Some(String::from("work")), 1);
    assert_eq!(build_status_line(&m, &Vec::new()), "Active: work");
}

#[test]
fn status_line_with_dock_only() {
    let m = Metadata::default();
    let docks = vec![dock("Dock", "u-1")];
    assert_eq!(build_status_line(&m, &docks), "Dock: Dock");
}

#[test]
fn status_line_with_nothing() {
    let m = Metadata::default();
    assert_eq!(build_status_line(&m, &Vec::new()), "No active profile");
}

#[test]
fn profile_rows_reflect_the_record() {
    let m = Metadata {
        active_profile: Some(String::from("work")),
        last_modified: None,
        dock_profiles: vec![DockBinding {
            uuid: String::from("u-1"),
            profile: String::from("work"),
        }],
        undocked_profile: Some(String::from("laptop")),
    };
    let mut p = Profile::new(String::from("work"));
    p.description = Some(String::from("desk setup"));
    let row = profile_info(&String::from("work"), Some(&p), &m);
    assert_eq!(row.name, "work");
    assert_eq!(row.description, "desk setup");
    assert_eq!(row.monitor_count, 0);
    assert!(row.is_active);
    assert_eq!(row.dock_uuid.as_deref(), Some("u-1"));
    assert!(!row.is_undocked);
    assert!(!row.load_error);

    let row = profile_info(&String::from("laptop"), None, &m);
    assert_eq!(row.description, "");
    assert!(!row.is_active);
    assert_eq!(row.dock_uuid, None);
    assert!(row.is_undocked);
    assert!(row.load_error);
}

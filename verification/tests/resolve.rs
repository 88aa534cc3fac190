use hyprpier::apply::{apply_profile, resolve_target, Decision};
use hyprpier::dock::ThunderboltDevice;
use hyprpier::metadata::{DockBinding, Metadata};

fn dock(uuid: &str, device_id: &str) -> ThunderboltDevice {
    ThunderboltDevice {
        name: format!("Dock {}", uuid),
        uuid: String::from(uuid),
        vendor: None,
        is_host: false,
        device_id: String::from(device_id),
    }
}

fn bound_metadata() -> Metadata {
    Metadata {
        active_profile: Some(String::from("X")),
        last_modified: None,
        dock_profiles: vec![
            DockBinding { uuid: String::from("U1"), profile: String::from("A") },
            DockBinding { uuid: String::from("U2"), profile: String::from("B") },
        ],
        undocked_profile: Some(String::from("C")),
    }
}

#[test]
fn first_connected_bound_dock_wins() {
    // Docks sorted as [U2, U1]: the first with a binding is U2, bound to B.
    let m = bound_metadata();
    let docks = vec![dock("U2", "0-1"), dock("U1", "0-3")];
    match resolve_target(&m, &docks) {
        Decision::SwitchToDock { dock_index, target } => {
            assert_eq!(dock_index, 0);
            assert_eq!(target, "B");
        }
        other => panic!("expected a dock switch, got {:?}", other),
    }
    // Applying transitions the active profile from X to B.
    let mut m = m;
    apply_profile(&mut m, "B", 7);
    assert_eq!(m.active_profile.as_deref(), Some("B"));
    assert_eq!(m.last_modified, Some(7));
}

#[test]
fn unbound_docks_fall_back_to_undocked() {
    let m = bound_metadata();
    let docks = vec![dock("U9", "0-1")];
    match resolve_target(&m, &docks) {
        Decision::SwitchToUndocked { target } => assert_eq!(target, "C"),
        other => panic!("expected the undocked fallback, got {:?}", other),
    }
}

#[test]
fn active_undocked_profile_short_circuits() {
    // No connected docks, undocked C, active already C: no side effects.
    let mut m = bound_metadata();
    m.active_profile = Some(String::from("C"));
    let before = m.clone();
    let docks: Vec<ThunderboltDevice> = Vec::new();
    assert_eq!(resolve_target(&m, &docks), Decision::AlreadyActive);
    // Resolving only reads; the record is untouched.
    assert_eq!(m, before);
}

#[test]
fn second_resolve_is_a_no_op() {
    // Two resolutions in a row with unchanged hardware and bindings make
    // exactly one switch and then one no-op.
    let mut m = bound_metadata();
    let docks = vec![dock("U1", "0-1")];
    let target = match resolve_target(&m, &docks) {
        Decision::SwitchToDock { target, .. } => target,
        other => panic!("expected a dock switch, got {:?}", other),
    };
    assert_eq!(target, "A");
    apply_profile(&mut m, &target, 1);
    assert_eq!(resolve_target(&m, &docks), Decision::AlreadyActive);
}

#[test]
fn nothing_configured_is_a_terminal_outcome() {
    let m = Metadata::default();
    let docks = vec![dock("U7", "0-1")];
    assert_eq!(resolve_target(&m, &docks), Decision::NoTarget);
    let none: Vec<ThunderboltDevice> = Vec::new();
    assert_eq!(resolve_target(&m, &none), Decision::NoTarget);
}

#[test]
fn active_bound_dock_short_circuits() {
    let mut m = bound_metadata();
    m.active_profile = Some(String::from("B"));
    let docks = vec![dock("U2", "0-1"), dock("U1", "0-3")];
    assert_eq!(resolve_target(&m, &docks), Decision::AlreadyActive);
}

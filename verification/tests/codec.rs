use hyprpier::metadata::{DockBinding, Metadata};
use hyprpier::profile::{LidSwitch, Monitor, Position, Profile, Workspace};

fn sample_profile() -> Profile {
    Profile {
        name: String::from("desk \"main\""),
        description: Some(String::from("two monitors\nwith a tab\there")),
        monitors: vec![
            Monitor {
                name: String::from("DP-1"),
                description: Some(String::from("Vendor Inc ABC\\123")),
                enabled: true,
                resolution: String::from("2560x1440"),
                refresh_rate_mhz: 143_912,
                position: Position { x: -2560, y: 0 },
                scale_milli: 1000,
                transform: 0,
                mode: String::from("auto"),
            },
            Monitor {
                name: String::from("eDP-1"),
                description: None,
                enabled: false,
                resolution: String::from("1920x1080"),
                refresh_rate_mhz: 60_000,
                position: Position { x: 0, y: 360 },
                scale_milli: 1250,
                transform: 3,
                mode: String::from("preferred"),
            },
        ],
        workspaces: vec![
            Workspace { id: 1, monitor: String::from("DP-1"), is_default: true },
            Workspace { id: 9, monitor: String::from("eDP-1"), is_default: true },
        ],
        lid_switch: Some(LidSwitch {
            enabled: true,
            monitor: String::from("eDP-1"),
            on_close: String::from("disable"),
            on_open: String::from("enable"),
        }),
    }
}

#[test]
fn profile_round_trip() {
    let p = sample_profile();
    let doc = p.to_doc();
    let q = Profile::from_doc(&doc).expect("canonical text parses");
    assert_eq!(p, q);
}

#[test]
fn empty_profile_has_exact_text() {
    let p = Profile::new(String::from("p"));
    assert_eq!(
        p.to_doc(),
        "{\"name\":\"p\",\"description\":null,\"monitors\":[],\"workspaces\":[],\"lid_switch\":null}"
    );
}

#[test]
fn empty_profile_round_trip() {
    let p = Profile::new(String::from("p"));
    let q = Profile::from_doc(&p.to_doc()).expect("canonical text parses");
    assert_eq!(p, q);
}

#[test]
fn control_characters_are_escaped_and_recovered() {
    let mut p = Profile::new(String::from("q"));
    p.description = Some(String::from("a\u{1}b\u{1f}c\"d\\e"));
    let doc = p.to_doc();
    assert!(doc.contains("\\u0001"));
    assert!(doc.contains("\\u001f"));
    assert!(doc.contains("\\\""));
    assert!(doc.contains("\\\\"));
    let q = Profile::from_doc(&doc).expect("canonical text parses");
    assert_eq!(p, q);
}

#[test]
fn malformed_documents_are_rejected() {
    assert!(Profile::from_doc("").is_err());
    assert!(Profile::from_doc("{}").is_err());
    assert!(Profile::from_doc("not json at all").is_err());
    // Whitespace is not part of the canonical spelling.
    assert!(Profile::from_doc(
        "{\"name\": \"p\",\"description\":null,\"monitors\":[],\"workspaces\":[],\"lid_switch\":null}"
    )
    .is_err());
    // Trailing bytes after the document are rejected.
    let good = Profile::new(String::from("p")).to_doc();
    let mut trailing = good.clone();
    trailing.push(' ');
    assert!(Profile::from_doc(&good).is_ok());
    assert!(Profile::from_doc(&trailing).is_err());
}

#[test]
fn number_bounds_are_checked() {
    // transform is a single byte; 256 does not fit.
    let doc = "{\"name\":\"p\",\"description\":null,\"monitors\":[{\"name\":\"a\",\"description\":null,\"enabled\":true,\"resolution\":\"1x1\",\"refresh_rate_mhz\":60000,\"position\":{\"x\":0,\"y\":0},\"scale_milli\":1000,\"transform\":256,\"mode\":\"auto\"}],\"workspaces\":[],\"lid_switch\":null}";
    assert!(Profile::from_doc(doc).is_err());
    let ok = doc.replace("256", "7");
    assert!(Profile::from_doc(&ok).is_ok());
}

#[test]
fn leading_zeros_are_not_canonical() {
    let doc = Profile::new(String::from("p")).to_doc();
    assert!(Profile::from_doc(&doc).is_ok());
    let bad = "{\"name\":\"p\",\"description\":null,\"monitors\":[{\"name\":\"a\",\"description\":null,\"enabled\":true,\"resolution\":\"1x1\",\"refresh_rate_mhz\":060000,\"position\":{\"x\":0,\"y\":0},\"scale_milli\":1000,\"transform\":0,\"mode\":\"auto\"}],\"workspaces\":[],\"lid_switch\":null}";
    assert!(Profile::from_doc(bad).is_err());
}

#[test]
fn negative_positions_round_trip() {
    let mut p = Profile::new(String::from("p"));
    p.monitors.push(Monitor {
        name: String::from("DP-3"),
        description: None,
        enabled: true,
        resolution: String::from("800x600"),
        refresh_rate_mhz: 0,
        position: Position { x: i32::MIN, y: i32::MAX },
        scale_milli: u32::MAX,
        transform: 7,
        mode: String::from("m"),
    });
    let q = Profile::from_doc(&p.to_doc()).expect("canonical text parses");
    assert_eq!(p, q);
}

#[test]
fn only_canonical_escapes_are_accepted() {
    let canonical =
        "{\"name\":\"a\\u001fb\",\"description\":null,\"monitors\":[],\"workspaces\":[],\"lid_switch\":null}";
    assert!(Profile::from_doc(canonical).is_ok());
    // Uppercase hex digits are not the canonical spelling.
    let uppercase = canonical.replace("\\u001f", "\\u001F");
    assert!(Profile::from_doc(&uppercase).is_err());
    // Characters at or above the space need no escape and may not have one.
    let needless = canonical.replace("\\u001f", "\\u0041");
    assert!(Profile::from_doc(&needless).is_err());
}

#[test]
fn metadata_default_has_exact_text() {
    let m = Metadata::default();
    assert_eq!(
        m.to_doc(),
        "{\"active_profile\":null,\"last_modified\":null,\"dock_profiles\":[],\"undocked_profile\":null}"
    );
}

#[test]
fn metadata_round_trip() {
    let m = Metadata {
        active_profile: Some(String::from("work")),
        last_modified: Some(1_700_000_000),
        dock_profiles: vec![
            DockBinding { uuid: String::from("u-1"), profile: String::from("work") },
            DockBinding { uuid: String::from("u-2"), profile: String::from("home") },
        ],
        undocked_profile: Some(String::from("laptop")),
    };
    let doc = m.to_doc();
    let n = Metadata::from_doc(&doc).expect("canonical text parses");
    assert_eq!(m, n);
}

#[test]
fn metadata_malformed_is_rejected() {
    assert!(Metadata::from_doc("").is_err());
    assert!(Metadata::from_doc("{\"active_profile\":null}").is_err());
}

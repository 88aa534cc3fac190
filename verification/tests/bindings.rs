use hyprpier::config::{hyprland_monitors_conf, metadata_path, profile_dir, profile_path};
use hyprpier::metadata::Metadata;
use hyprpier::profile::list_profiles;

#[test]
fn link_then_lookup() {
    let mut m = Metadata::default();
    m.link_dock("u-1", "work", 10);
    assert_eq!(m.get_dock_profile("u-1").map(String::as_str), Some("work"));
    assert_eq!(m.get_dock_profile("u-2"), None);
    assert_eq!(m.last_modified, Some(10));
}

#[test]
fn link_is_an_upsert_in_place() {
    let mut m = Metadata::default();
    m.link_dock("u-1", "work", 1);
    m.link_dock("u-2", "home", 2);
    m.link_dock("u-1", "travel", 3);
    assert_eq!(m.dock_profiles.len(), 2);
    assert_eq!(m.dock_profiles[0].uuid, "u-1");
    assert_eq!(m.dock_profiles[0].profile, "travel");
    assert_eq!(m.dock_profiles[1].uuid, "u-2");
}

#[test]
fn unlink_removes_only_the_named_identity() {
    let mut m = Metadata::default();
    m.link_dock("u-1", "work", 1);
    m.link_dock("u-2", "home", 2);
    m.unlink_dock("u-1", 3);
    assert_eq!(m.get_dock_profile("u-1"), None);
    assert_eq!(m.get_dock_profile("u-2").map(String::as_str), Some("home"));
    // Unlinking an absent identity is a no-op on the bindings.
    m.unlink_dock("u-9", 4);
    assert_eq!(m.dock_profiles.len(), 1);
    assert_eq!(m.last_modified, Some(4));
}

#[test]
fn reverse_lookup_takes_the_first_match() {
    let mut m = Metadata::default();
    m.link_dock("u-2", "work", 1);
    m.link_dock("u-1", "work", 2);
    // Two identities bound to one profile: the first in binding order wins.
    assert_eq!(m.get_profile_dock("work").map(String::as_str), Some("u-2"));
    assert_eq!(m.get_profile_dock("home"), None);
}

#[test]
fn mutators_stamp_the_record() {
    let mut m = Metadata::default();
    m.set_active(Some(String::from("a")), 5);
    assert_eq!(m.active_profile.as_deref(), Some("a"));
    assert_eq!(m.last_modified, Some(5));
    m.set_undocked(Some(String::from("b")), 6);
    assert_eq!(m.undocked_profile.as_deref(), Some("b"));
    assert_eq!(m.last_modified, Some(6));
    m.set_active(None, 7);
    assert_eq!(m.active_profile, None);
    m.touch(8);
    assert_eq!(m.last_modified, Some(8));
}

#[test]
fn paths_are_derived_from_the_config_directory() {
    assert_eq!(profile_dir("/home/u/.config"), "/home/u/.config/hyprpier");
    assert_eq!(metadata_path("/home/u/.config"), "/home/u/.config/hyprpier/.metadata.json");
    assert_eq!(hyprland_monitors_conf("/home/u/.config"), "/home/u/.config/hypr/monitors.conf");
    assert_eq!(profile_path("/home/u/.config", "work"), "/home/u/.config/hyprpier/work.json");
}

#[test]
fn listing_filters_and_sorts_store_files() {
    let files = vec![
        String::from("zeta.json"),
        String::from(".metadata.json"),
        String::from("alpha.json"),
        String::from("notes.txt"),
        String::from(".json"),
        String::from("beta.json.bak"),
        String::from("mid.json"),
    ];
    let names = list_profiles(files);
    assert_eq!(names, vec!["alpha", "mid", "zeta"]);
}

#[test]
fn listing_an_empty_directory_is_empty() {
    assert_eq!(list_profiles(Vec::new()), Vec::<String>::new());
}

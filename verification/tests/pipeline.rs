use beacon_directory::buildings::{Building, ETH_UUID};
use beacon_directory::emit::{render_beacons, render_buildings};
use beacon_directory::errors::RunError;
use beacon_directory::manifest::sync_features;
use beacon_directory::records::{build_directory, BeaconResponse, RawBeacon};
use beacon_directory::text::str_lt;

fn record(
    major: u16,
    minor: u16,
    lat: &str,
    lon: &str,
    building: &str,
    floor: &str,
    room: &str,
) -> RawBeacon {
    RawBeacon {
        major,
        minor,
        lat: lat.to_string(),
        lon: lon.to_string(),
        building: building.to_string(),
        floor: floor.to_string(),
        room: room.to_string(),
    }
}

fn expected_entry(
    tag: &str,
    major: u16,
    minor: u16,
    lat: &str,
    lon: &str,
    building: &str,
    floor: &str,
    room: &str,
) -> String {
    format!(
        "    #[cfg(feature = \"{}\")]\n    Beacon {{\n        id: Id {{ uuid: ETH_UUID, major: {}, minor: {} }},\n        position: Position {{ lat: {}, lon: {} }},\n        location: Location {{ building: Building::{}, floor: \"{}\", room: \"{}\" }},\n    }},\n\n",
        tag, major, minor, lat, lon, building, floor, room
    )
}

fn expected_son_entries() -> String {
    let mut s = String::new();
    s.push_str(&expected_entry("SON", 99, 16, "47.539442", "8.293186", "SON", "A", "31"));
    s.push_str(&expected_entry("SON", 99, 17, "47.539474", "8.293205", "SON", "A", "31"));
    s.push_str(&expected_entry("SON", 99, 20, "47.539487", "8.293172", "SON", "A", "31"));
    s
}

fn expected_enum(tags: &[&str]) -> String {
    let mut s = String::from(
        "\nuse strum_macros::AsRefStr;\n\n#[derive(Debug, Clone, AsRefStr)]\npub enum Building {\n",
    );
    for t in tags {
        s.push_str(&format!("    {},\n", t));
    }
    s.push_str("\n}\n\n");
    s
}

#[test]
fn scenario_single_record() {
    let records = vec![record(1, 2, "47.1", "8.5", "HG", "E", "1")];
    let (dir, discarded) = build_directory(records);
    assert!(!discarded);

    let enum_text = render_buildings(&dir);
    assert_eq!(enum_text, expected_enum(&["HG", "SON"]));

    let table = render_beacons(&dir);
    let mut expected = String::from("\n\npub static BEACONS: &[Beacon] = &[\n");
    expected.push_str(&expected_entry("HG", 1, 2, "47.1", "8.5", "HG", "E", "1"));
    expected.push_str(&expected_son_entries());
    expected.push_str("];\n");
    assert_eq!(table, expected);

    let manifest = sync_features("[package]\nname = \"consumer\"\n", &dir.tag_strings());
    assert_eq!(
        manifest,
        "[package]\nname = \"consumer\"\n\n\n[features]\nALL = [\"HG\", \"SON\"]\nHG = []\nSON = []\n"
    );
}

#[test]
fn scenario_empty_upstream() {
    let (dir, discarded) = build_directory(Vec::new());
    assert!(!discarded);

    let enum_text = render_buildings(&dir);
    assert_eq!(enum_text, expected_enum(&["SON"]));

    let table = render_beacons(&dir);
    let mut expected = String::from("\n\npub static BEACONS: &[Beacon] = &[\n");
    expected.push_str(&expected_son_entries());
    expected.push_str("];\n");
    assert_eq!(table, expected);

    let manifest = sync_features("", &dir.tag_strings());
    assert_eq!(manifest, "\n\n[features]\nALL = [\"SON\"]\nSON = []\n");
}

#[test]
fn override_precedence() {
    // Upstream records for the built-in tag are discarded wholesale.
    let records = vec![
        record(7, 8, "1.0", "2.0", "SON", "B", "99"),
        record(9, 10, "3.0", "4.0", "SON", "C", "98"),
    ];
    let (dir, discarded) = build_directory(records);
    assert!(discarded);

    let table = render_beacons(&dir);
    let mut expected = String::from("\n\npub static BEACONS: &[Beacon] = &[\n");
    expected.push_str(&expected_son_entries());
    expected.push_str("];\n");
    assert_eq!(table, expected);
}

#[test]
fn grouping_orders_tags_and_keeps_input_order() {
    let records = vec![
        record(1, 1, "1", "1", "ZUE", "A", "1"),
        record(2, 2, "2", "2", "CAB", "A", "2"),
        record(3, 3, "3", "3", "ZUE", "B", "3"),
        record(4, 4, "4", "4", "CAB", "B", "4"),
    ];
    let resp = BeaconResponse { beacons: records };
    let dir = resp.get_beacons();
    let tags: Vec<&str> = dir.groups.iter().map(|g| g.tag.as_str()).collect();
    assert_eq!(tags, vec!["CAB", "ZUE"]);
    let cab_minors: Vec<u16> = dir.groups[0].records.iter().map(|r| r.minor).collect();
    assert_eq!(cab_minors, vec![2, 4]);
    let zue_minors: Vec<u16> = dir.groups[1].records.iter().map(|r| r.minor).collect();
    assert_eq!(zue_minors, vec![1, 3]);
}

#[test]
fn determinism_two_runs() {
    let make = || {
        vec![
            record(1, 2, "47.1", "8.5", "HG", "E", "1"),
            record(3, 4, "47.2", "8.6", "CAB", "F", "2"),
        ]
    };
    let (d1, _) = build_directory(make());
    let (d2, _) = build_directory(make());
    assert_eq!(render_buildings(&d1), render_buildings(&d2));
    assert_eq!(render_beacons(&d1), render_beacons(&d2));
}

#[test]
fn numeric_fields_render_as_received() {
    let records = vec![record(65535, 0, "0.000001", "-8.25", "HG", "E", "1")];
    let (dir, _) = build_directory(records);
    let table = render_beacons(&dir);
    assert!(table.contains("major: 65535, minor: 0"));
    assert!(table.contains("lat: 0.000001, lon: -8.25"));
}

#[test]
fn building_short_codes() {
    assert_eq!(Building::HG.short_code(), "HG");
    assert_eq!(Building::SON.short_code(), "SON");
    assert_eq!(Building::ZUE.short_code(), "ZUE");
}

#[test]
fn uuid_constant() {
    assert_eq!(ETH_UUID, "58793564-459c-548d-bfcc-367ffd4fcd70");
}

#[test]
fn error_messages() {
    let e = RunError::Transport("http://inventory.example/beacons".to_string());
    assert_eq!(
        e.message(),
        "Failed to fetch data from http://inventory.example/beacons"
    );
    let e = RunError::Decode("invalid type: string, expected a sequence".to_string());
    assert_eq!(
        e.message(),
        "Failed to read json body: invalid type: string, expected a sequence"
    );
    let e = RunError::ArtifactWrite("./src/beacons.gen.rs".to_string());
    assert_eq!(e.message(), "Failed to write artifact ./src/beacons.gen.rs");
    let e = RunError::Manifest("./Cargo.toml".to_string());
    assert_eq!(e.message(), "Failed to update build manifest ./Cargo.toml");
}

#[test]
fn tag_strings_are_sorted() {
    let records = vec![
        record(1, 1, "1", "1", "ZUE", "A", "1"),
        record(2, 2, "2", "2", "CAB", "A", "2"),
    ];
    let (dir, _) = build_directory(records);
    assert_eq!(dir.tag_strings(), vec!["CAB", "SON", "ZUE"]);
}

#[test]
fn lexicographic_order() {
    assert!(str_lt("CAB", "ZUE"));
    assert!(!str_lt("ZUE", "CAB"));
    assert!(str_lt("HG", "HGP"));
    assert!(!str_lt("HGP", "HG"));
    assert!(!str_lt("HG", "HG"));
}

use beacon_directory::manifest::{render_features_section, sync_features};

fn tags(ts: &[&str]) -> Vec<String> {
    ts.iter().map(|t| t.to_string()).collect()
}

#[test]
fn section_rendering() {
    let s = render_features_section(&tags(&["HG", "SON"]));
    assert_eq!(s, "[features]\nALL = [\"HG\", \"SON\"]\nHG = []\nSON = []\n");
}

#[test]
fn section_rendering_single_tag() {
    let s = render_features_section(&tags(&["SON"]));
    assert_eq!(s, "[features]\nALL = [\"SON\"]\nSON = []\n");
}

#[test]
fn replaces_existing_section() {
    let content = "[package]\nname = \"consumer\"\n\n[features]\nALL = [\"OLD\"]\nOLD = []\n# hand-edited note\n\n[dependencies]\nserde = \"1\"\n";
    let out = sync_features(content, &tags(&["HG", "SON"]));
    assert_eq!(
        out,
        "[package]\nname = \"consumer\"\n\n[features]\nALL = [\"HG\", \"SON\"]\nHG = []\nSON = []\n[dependencies]\nserde = \"1\"\n"
    );
}

#[test]
fn replaces_section_at_end_of_file() {
    let content = "[package]\nname = \"consumer\"\n\n[features]\nSTALE = []\n";
    let out = sync_features(content, &tags(&["SON"]));
    assert_eq!(
        out,
        "[package]\nname = \"consumer\"\n\n[features]\nALL = [\"SON\"]\nSON = []\n"
    );
}

#[test]
fn appends_when_absent() {
    let content = "[package]\nname = \"consumer\"\n";
    let out = sync_features(content, &tags(&["HG"]));
    assert_eq!(
        out,
        "[package]\nname = \"consumer\"\n\n\n[features]\nALL = [\"HG\"]\nHG = []\n"
    );
}

#[test]
fn idempotent_after_replacement() {
    let content = "[package]\nname = \"consumer\"\n\n[features]\nOLD = []\n\n[dependencies]\nserde = \"1\"\n";
    let ts = tags(&["CAB", "HG", "SON"]);
    let once = sync_features(content, &ts);
    let twice = sync_features(&once, &ts);
    assert_eq!(once, twice);
}

#[test]
fn idempotent_after_append() {
    let content = "[package]\nname = \"consumer\"\n";
    let ts = tags(&["SON"]);
    let once = sync_features(content, &ts);
    let twice = sync_features(&once, &ts);
    assert_eq!(once, twice);
}

#[test]
fn no_stale_flags_survive() {
    let content = "[features]\nALL = [\"GONE\"]\nGONE = []\n";
    let out = sync_features(content, &tags(&["HG", "SON"]));
    assert!(!out.contains("GONE"));
    assert_eq!(out, "[features]\nALL = [\"HG\", \"SON\"]\nHG = []\nSON = []\n");
}

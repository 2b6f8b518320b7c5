use agents_mon::keys::Key;
use agents_mon::overlay::{help_text, overlay_key, picker_text, Outcome, Overlay};
use agents_mon::versions::{
    current_tag, is_tag, known_tags, newer_than, picker_sel, update_available,
};

#[test]
fn tags_compare_numerically_not_as_strings() {
    assert!(newer_than("v0.1.7", "v0.1.6"));
    assert!(!newer_than("v0.1.6", "v0.1.7")); // the bug the user hit
    assert!(!newer_than("v0.1.7", "v0.1.7"));
    assert!(newer_than("v0.2.0", "v0.1.99"));
    assert!(newer_than("v1.0.0", "v0.99.99"));
    // string order puts v0.1.10 before v0.1.9 — numbers must not
    assert!(newer_than("v0.1.10", "v0.1.9"));
    assert!(!newer_than("v0.1.9", "v0.1.10"));
    // a shorter tag is the same as trailing zeros
    assert!(!newer_than("v0.1", "v0.1.0"));
    assert!(newer_than("v0.1.1", "v0.1"));
}

#[test]
fn picker_selection_survives_refreshes() {
    let tags = vec!["v3".into(), "v2".into(), "v1".into()];
    assert_eq!(picker_sel(&tags, "v2", None, 0), 1);

    let reordered = vec!["v4".into(), "v3".into(), "v1".into(), "v2".into()];
    assert_eq!(picker_sel(&reordered, "v2", Some("v1"), 2), 2);
    assert_eq!(picker_sel(&reordered, "v2", Some("missing"), 1), 1);

    let shrunk = vec!["v3".into()];
    assert_eq!(picker_sel(&shrunk, "v2", Some("missing"), 9), 0);
    assert_eq!(picker_sel(&vec![], "v2", None, 9), 0);
}

#[test]
fn update_notice_only_for_a_newer_release() {
    let current = current_tag("0.1.7");
    let available = |recorded: Option<&str>| update_available(recorded, &current);

    assert_eq!(available(None), None); // no check has run yet
    assert_eq!(available(Some(&format!("{}\n", current))), None); // already on the newest
    assert_eq!(available(Some("v9.9.9\n")).as_deref(), Some("v9.9.9"));
    // the notice rides the header: a newline would push every list line
    // down one and break the click -> pane mapping
    assert!(!available(Some("v9.9.9\n")).unwrap().contains('\n'));
    // the regression: any difference counted as an update, so a checkout
    // ahead of every release advertised "↑" for the older tag behind it
    assert_eq!(available(Some("v0.0.1\n")), None);
    // the tag is handed to update.sh as an argument
    assert_eq!(available(Some("v1.0.0; rm -rf /\n")), None);
    assert_eq!(available(Some("garbage\n")), None);
}

#[test]
fn tags_are_boring() {
    assert!(is_tag("v1"));
    assert!(is_tag("v1.2-rc3"));
    assert!(!is_tag("v"));
    assert!(!is_tag("1.2"));
    assert!(!is_tag("v1 2"));
    assert!(!is_tag("vé"));
    assert_eq!(current_tag("0.1.7"), "v0.1.7");
}

#[test]
fn parts_that_are_no_numbers_count_as_zero() {
    assert!(newer_than("v1.0-2", "v1.0-rc1"));
    assert!(!newer_than("v1.0-rc2", "v1.0-rc1"));
    assert!(!newer_than("vv1", "v1"));
    assert!(newer_than("v1.0.0.1", "v1"));
    assert!(!newer_than("v99999999999999999999", "v0"));
}

#[test]
fn the_picker_offers_ten_releases() {
    let mut text = String::from("  v0.9 \nnot a tag\n");
    for i in 0..12 {
        text.push_str(&format!("v1.{i}\n"));
    }
    let tags = known_tags(&text);
    assert_eq!(tags.len(), 10);
    assert_eq!(tags[0], "v0.9");
    assert_eq!(tags[9], "v1.8");
    assert!(known_tags("").is_empty());
}

fn two() -> Vec<String> {
    vec!["v2".to_string(), "v1".to_string()]
}

fn versions(sel: usize, chosen: Option<&str>) -> Overlay {
    Overlay::Versions { sel, chosen: chosen.map(|s| s.to_string()) }
}

#[test]
fn any_key_closes_the_help() {
    assert!(matches!(overlay_key(Overlay::Help, &Key::Down, &two(), "v1"), Outcome::Closes));
}

#[test]
fn the_picker_moves_and_switches() {
    // it opens on the release that runs
    match overlay_key(versions(0, None), &Key::Up, &two(), "v1") {
        Outcome::Stays(Overlay::Versions { sel, chosen }) => {
            assert_eq!(sel, 0);
            assert_eq!(chosen.as_deref(), Some("v2"));
        }
        _ => panic!("it stays"),
    }
    match overlay_key(versions(0, Some("v2")), &Key::Down, &two(), "v1") {
        Outcome::Stays(Overlay::Versions { sel, .. }) => assert_eq!(sel, 1),
        _ => panic!("it stays"),
    }
    assert!(matches!(overlay_key(versions(1, Some("v1")), &Key::Down, &two(), "v1"),
        Outcome::Stays(Overlay::Versions { sel: 1, .. })));
    assert!(matches!(overlay_key(versions(0, Some("v2")), &Key::Jump, &two(), "v1"),
        Outcome::Switches(t) if t == "v2"));
    assert!(matches!(overlay_key(versions(1, Some("v1")), &Key::Jump, &two(), "v1"), Outcome::Closes));
    assert!(matches!(overlay_key(versions(1, None), &Key::Quit, &two(), "v1"), Outcome::Closes));
    assert!(matches!(overlay_key(versions(1, None), &Key::Close, &two(), "v1"), Outcome::Closes));
    assert!(matches!(overlay_key(versions(3, None), &Key::Down, &vec![], "v1"),
        Outcome::Stays(Overlay::Versions { sel: 0, chosen: None })));
    assert!(matches!(overlay_key(versions(3, None), &Key::Jump, &vec![], "v1"), Outcome::Closes));
}

#[test]
fn the_picker_marks_the_release_that_runs() {
    assert_eq!(
        picker_text(&two(), "v1", 0),
        "\x1b[2J\x1b[H\x1b[1magents — versions\x1b[0m \x1b[2mv1\x1b[0m\n\n\x1b[1;32m❯\x1b[0m v2\n  v1 \x1b[2m(current)\x1b[0m\n\n\x1b[2m↵ switch · j/k ↑/↓ · q back\x1b[0m"
    );
    assert_eq!(
        picker_text(&vec![], "v1", 0),
        "\x1b[2J\x1b[H\x1b[1magents — versions\x1b[0m \x1b[2mv1\x1b[0m\n\n \x1b[2mno releases found — checking…\x1b[0m\n\n\x1b[2mq back\x1b[0m"
    );
}

#[test]
fn the_help_names_the_release_and_the_keys() {
    let h = help_text("v0.1.7");
    assert!(h.starts_with("\x1b[2J\x1b[H\x1b[1magents — help\x1b[0m \x1b[2mv0.1.7\x1b[0m\n\n\x1b[1mstatus\x1b[0m\n"));
    assert!(h.contains("\nj/k ↑/↓  move selection\nEnter/l  jump to agent\n"));
    assert!(h.contains("\nu        update / switch version\n q        close sidebar\n?        this help\n\n"));
    assert!(h.ends_with("\x1b[2mpress any key to return\x1b[0m"));
}

use exif_attrs::exif::{create_list_from_vec, Exif, Mode};

fn pull(stdout: &str, mode: Mode) -> Exif {
    match Exif::from_text(stdout, "", &mode) {
        Ok(exif) => exif,
        Err(err) => panic!("{}", err.describe()),
    }
}

#[test]
fn all_mode_keeps_one_entry_per_tag_last_value_wins() {
    let exif = pull("A: 1\nB: 2\nA: 3", Mode::All);
    assert_eq!(exif.attributes.len(), 2);
    assert_eq!(exif.attributes.get("A").unwrap().as_str(), "3");
    assert_eq!(exif.attributes.get("B").unwrap().as_str(), "2");
}

#[test]
fn created_list_holds_exactly_its_elements() {
    let list = create_list_from_vec(vec!["GPSLatitude", "GPSLongitude"]);
    assert!(list.contains("GPSLatitude"));
    assert!(list.contains("GPSLongitude"));
    assert!(!list.contains("ISO"));
    assert_eq!(list.len(), 2);
}

#[test]
fn whitelist_stops_at_first_non_member() {
    let list = create_list_from_vec(vec!["A", "B"]);
    let exif = pull("A: 1\nB: 2\nC: 3\nA: 4", Mode::Whitelist(list));
    assert_eq!(exif.attributes.len(), 2);
    assert_eq!(exif.attributes.get("A").unwrap().as_str(), "1");
    assert_eq!(exif.attributes.get("B").unwrap().as_str(), "2");
    assert!(exif.attributes.get("C").is_none());
}

#[test]
fn whitelist_drops_everything_when_first_tag_is_non_member() {
    let list = create_list_from_vec(vec!["B"]);
    let exif = pull("A: 1\nB: 2", Mode::Whitelist(list));
    assert_eq!(exif.attributes.len(), 0);
}

#[test]
fn whitelist_skips_blank_lines_before_deciding() {
    let list = create_list_from_vec(vec!["A", "B"]);
    let exif = pull("\nA: 1\n\nB: 2", Mode::Whitelist(list));
    assert_eq!(exif.attributes.len(), 2);
}

#[test]
fn blacklist_skips_members_and_stops_after_first_non_member() {
    let list = create_list_from_vec(vec!["C"]);
    let exif = pull("A: 1\nC: 2\nB: 3", Mode::Blacklist(list));
    assert_eq!(exif.attributes.len(), 1);
    assert_eq!(exif.attributes.get("A").unwrap().as_str(), "1");
}

#[test]
fn blacklist_retains_first_non_member_then_stops() {
    let list = create_list_from_vec(vec!["C"]);
    let exif = pull("A: 1\nB: 2\nC: 3", Mode::Blacklist(list));
    assert_eq!(exif.attributes.len(), 1);
    assert_eq!(exif.attributes.get("A").unwrap().as_str(), "1");
    assert!(exif.attributes.get("B").is_none());
}

#[test]
fn blacklist_skips_leading_members_before_retaining() {
    let list = create_list_from_vec(vec!["SerialNumber", "XPComment"]);
    let exif = pull(
        "Serial Number: 123\nXP Comment: hi\nGPS Latitude: 1.5\nISO: 100",
        Mode::Blacklist(list),
    );
    assert_eq!(exif.attributes.len(), 1);
    assert_eq!(exif.attributes.get("GPSLatitude").unwrap().as_str(), "1.5");
}

#[test]
fn shared_filter_set_yields_independent_stores() {
    let list = create_list_from_vec(vec!["C"]);
    let first = pull("A: 1\nC: 2", Mode::Blacklist(list.clone()));
    let second = pull("B: 9\nC: 2", Mode::Blacklist(list.clone()));
    assert_eq!(first.attributes.len(), 1);
    assert_eq!(first.attributes.get("A").unwrap().as_str(), "1");
    assert!(first.attributes.get("B").is_none());
    assert_eq!(second.attributes.len(), 1);
    assert_eq!(second.attributes.get("B").unwrap().as_str(), "9");
    assert!(second.attributes.get("A").is_none());
    assert!(list.contains("C"));
}

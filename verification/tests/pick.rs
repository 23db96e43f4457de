use ruget::{pick_version, Range, Version, VersionPicker};

#[test]
fn basic() {
    let picker = VersionPicker::default();
    let req = "[1.2.3,)".parse().unwrap();
    let versions = vec!["1.2.0", "1.2.2", "1.2.3", "1.2.3-alpha", "1.2.4", "2.0.0"]
        .into_iter()
        .map(|v| v.parse().unwrap())
        .collect::<Vec<_>>();
    let picked = picker.pick_version(&req, &versions);
    assert_eq!(Some("1.2.3".parse().unwrap()), picked);
}

#[test]
fn partial() {
    let picker = VersionPicker::default();
    let req = "1".parse().unwrap();
    let versions = vec!["1.2.0", "1.2.0-beta", "2.0.0"]
        .into_iter()
        .map(|v| v.parse().unwrap())
        .collect::<Vec<_>>();
    let picked = picker.pick_version(&req, &versions);
    assert_eq!(Some("1.2.0".parse().unwrap()), picked);
}

#[test]
fn floating() {
    let picker = VersionPicker::default();
    let req = "1.*".parse().unwrap();
    let versions = vec!["1.2.0", "1.2.0-beta", "2.0.0"]
        .into_iter()
        .map(|v| v.parse().unwrap())
        .collect::<Vec<_>>();
    let picked = picker.pick_version(&req, &versions);
    assert_eq!(Some("1.2.0".parse().unwrap()), picked);
}

fn versions(texts: &[&str]) -> Vec<Version> {
    texts.iter().map(|v| v.parse().unwrap()).collect()
}

#[test]
fn nothing_qualifies() {
    let req: Range = "[3,4]".parse().unwrap();
    assert_eq!(pick_version(&req, &versions(&["1.2.0", "2.0.0", "4.0.1"])), None);
    assert_eq!(pick_version(&req, &[]), None);
    assert_eq!(pick_version(&req, &versions(&["3.5.0-beta"])), None);
}

#[test]
fn lowest_for_pinned_highest_for_floating() {
    let list = versions(&["1.5.0", "1.0.0", "1.9.0", "3.0.0", "1.2.0"]);
    let pinned: Range = "[1,2)".parse().unwrap();
    assert_eq!(pick_version(&pinned, &list), Some("1.0.0".parse().unwrap()));
    let floating: Range = "[1.*,2)".parse().unwrap();
    assert_eq!(pick_version(&floating, &list), Some("1.9.0".parse().unwrap()));
    let forced = VersionPicker::new_floating_only();
    assert_eq!(forced.pick_version(&pinned, &list), Some("1.9.0".parse().unwrap()));
    assert_eq!(
        VersionPicker::new().pick_version(&pinned, &list),
        Some("1.0.0".parse().unwrap())
    );
}

#[test]
fn pre_releases_need_a_range_that_names_one() {
    let list = versions(&["1.0.0-beta", "1.0.0", "1.1.0-rc.1"]);
    let plain: Range = "[1.0.0-alpha,2.0.0]".parse().unwrap();
    assert_eq!(pick_version(&plain, &list), Some("1.0.0-beta".parse().unwrap()));
    let release: Range = "[0.5,2.0.0]".parse().unwrap();
    assert_eq!(pick_version(&release, &list), Some("1.0.0".parse().unwrap()));
    let top: Range = ">=1.0.0-0".parse().unwrap();
    assert_eq!(pick_version(&top, &list), Some("1.1.0-rc.1".parse().unwrap()));
}

#[test]
fn first_of_equal_versions_is_picked() {
    let list = versions(&["1.0.0+a", "1.0.0+b"]);
    let req: Range = "[1.0.0]".parse().unwrap();
    let picked = pick_version(&req, &list).unwrap();
    assert_eq!(picked.to_string(), "1.0.0+a");
    let picked = VersionPicker::new_floating_only().pick_version(&req, &list).unwrap();
    assert_eq!(picked.to_string(), "1.0.0+a");
}

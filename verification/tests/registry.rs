use cep_extensions::folders::Tier;
use cep_extensions::registry::{
    icon_files, is_adobe_builtin, list_extensions, manifest_file, name_at_most, sort_by_name,
    Candidate, FolderScan,
};
use std::path::Path;

fn manifest(id: &str, name: &str, version: &str) -> String {
    format!(
        "<ExtensionManifest ExtensionBundleId=\"{}\" ExtensionBundleVersion=\"{}\">\n<Menu>{}</Menu>\n<Host Name=\"PHSP\" Version=\"20\" />\n</ExtensionManifest>",
        id, version, name
    )
}

fn candidate(dir: &str, text: Option<String>, icons: Vec<bool>) -> Candidate {
    Candidate { dir: dir.to_string(), manifest: text, icons }
}

fn scan(tier: Tier, found: Vec<Candidate>) -> FolderScan {
    FolderScan { tier, found }
}

#[test]
fn builtin_identifiers_are_recognised_in_any_case() {
    for id in [
        "com.adobe.ccx.start",
        "COM.ADOBE.CEP.something",
        "com.adobe.exchange",
        "com.adobe.exman.panel",
        "com.adobe.indesign.cc.extensions.x",
        "com.adobe.AAM.y",
        "com.adobe.acrobat",
        "com.adobe.bridge.z",
        "com.adobe.dreamweaver.q",
        "com.adobe.illustrator.cc.extensions.r",
        "com.adobe.premiere.extension.s",
        "com.adobe.phonegap",
        "Com.Adobe.Validation.t",
    ] {
        assert!(is_adobe_builtin(id), "{}", id);
    }
}

#[test]
fn other_identifiers_are_not_builtin() {
    for id in ["com.example.tool", "com.adobe", "com.adobe.photoshop.panel", "", "xcom.adobe.ccx"] {
        assert!(!is_adobe_builtin(id), "{}", id);
    }
}

#[test]
fn user_copy_wins_over_system_copy() {
    let scans = vec![
        scan(
            Tier::User,
            vec![candidate("/user/com.example.tool", Some(manifest("com.example.tool", "Tool", "2.0")), vec![])],
        ),
        scan(
            Tier::System,
            vec![candidate("/system/com.example.tool", Some(manifest("com.example.tool", "Tool", "1.0")), vec![])],
        ),
    ];
    let list = list_extensions(&scans);
    assert_eq!(list.len(), 1);
    assert_eq!(list[0].id, "com.example.tool");
    assert_eq!(list[0].version, "2.0");
    assert_eq!(list[0].install_path, Some("/user/com.example.tool".to_string()));
}

#[test]
fn builtin_is_suppressed_in_system_folders_only() {
    let text = manifest("com.adobe.ccx.start", "Start", "1.0");
    let in_system =
        vec![scan(Tier::User, vec![]), scan(Tier::System, vec![candidate("/system/start", Some(text.clone()), vec![])])];
    assert!(list_extensions(&in_system).is_empty());
    let in_user =
        vec![scan(Tier::User, vec![candidate("/user/start", Some(text), vec![])]), scan(Tier::System, vec![])];
    let list = list_extensions(&in_user);
    assert_eq!(list.len(), 1);
    assert_eq!(list[0].id, "com.adobe.ccx.start");
    assert_eq!(list[0].install_path, Some("/user/start".to_string()));
}

#[test]
fn a_suppressed_builtin_does_not_hide_a_later_copy() {
    let text = manifest("com.adobe.ccx.start", "Start", "1.0");
    let scans = vec![
        scan(Tier::System, vec![candidate("/system/start", Some(text.clone()), vec![])]),
        scan(Tier::User, vec![candidate("/user/start", Some(text), vec![])]),
    ];
    let list = list_extensions(&scans);
    assert_eq!(list.len(), 1);
    assert_eq!(list[0].install_path, Some("/user/start".to_string()));
}

#[test]
fn listing_is_sorted_by_name_whatever_the_order_on_disk() {
    let names = ["delta", "Alpha", "charlie", "Bravo", "alpha"];
    let orders: [[usize; 5]; 4] = [[0, 1, 2, 3, 4], [4, 3, 2, 1, 0], [2, 0, 4, 1, 3], [1, 4, 0, 3, 2]];
    for order in orders {
        let found: Vec<Candidate> = order
            .iter()
            .map(|&i| {
                candidate(
                    &format!("/user/ext{}", i),
                    Some(manifest(&format!("com.example.ext{}", i), names[i], "1.0")),
                    vec![],
                )
            })
            .collect();
        let list = list_extensions(&vec![scan(Tier::User, found)]);
        let got: Vec<&str> = list.iter().map(|e| e.name.as_str()).collect();
        assert_eq!(got, vec!["Alpha", "Bravo", "alpha", "charlie", "delta"]);
    }
}

#[test]
fn extensions_of_one_name_keep_their_order() {
    let found = vec![
        candidate("/user/b", Some(manifest("com.example.b", "Same", "1.0")), vec![]),
        candidate("/user/a", Some(manifest("com.example.a", "Same", "1.0")), vec![]),
        candidate("/user/c", Some(manifest("com.example.c", "Same", "1.0")), vec![]),
    ];
    let list = list_extensions(&vec![scan(Tier::User, found)]);
    let got: Vec<&str> = list.iter().map(|e| e.id.as_str()).collect();
    assert_eq!(got, vec!["com.example.b", "com.example.a", "com.example.c"]);
}

#[test]
fn sorting_an_empty_list() {
    assert!(sort_by_name(Vec::new()).is_empty());
    assert!(list_extensions(&Vec::new()).is_empty());
}

#[test]
fn names_are_ordered_as_strings_are() {
    let names = ["", "a", "A", "ab", "b", "\u{e9}", "z", "Zebra", "\u{4e2d}", "a\u{0}", "\u{1f600}"];
    for a in names {
        for b in names {
            assert_eq!(name_at_most(a, b), a <= b, "{:?} {:?}", a, b);
        }
    }
}

#[test]
fn directories_without_a_usable_descriptor_are_passed_over() {
    let found = vec![
        candidate("/user/none", None, vec![true]),
        candidate("/user/broken", Some("<ExtensionManifest>\n<Menu>No id</Menu>".to_string()), vec![]),
        candidate("/user/good", Some(manifest("com.example.good", "Good", "1.0")), vec![]),
    ];
    let list = list_extensions(&vec![scan(Tier::User, found)]);
    assert_eq!(list.len(), 1);
    assert_eq!(list[0].id, "com.example.good");
}

#[test]
fn duplicates_within_one_folder_are_reported_once() {
    let found = vec![
        candidate("/user/one", Some(manifest("com.example.tool", "Tool", "1.0")), vec![]),
        candidate("/user/two", Some(manifest("com.example.tool", "Tool", "2.0")), vec![]),
    ];
    let list = list_extensions(&vec![scan(Tier::User, found)]);
    assert_eq!(list.len(), 1);
    assert_eq!(list[0].install_path, Some("/user/one".to_string()));
}

#[test]
fn the_first_icon_that_exists_is_taken() {
    let dir = "/user/com.example.tool";
    let text = manifest("com.example.tool", "Tool", "1.0");
    let cases: Vec<(Vec<bool>, Option<&str>)> = vec![
        (vec![], None),
        (vec![false, false, false, false], None),
        (vec![true, true, true, true], Some("icon.png")),
        (vec![false, true, false, true], Some("Icon.png")),
        (vec![false, false, true], Some("icon.svg")),
        (vec![false, false, false, true, true], Some("logo.png")),
        (vec![false, false, false, false, true], None),
    ];
    for (icons, expected) in cases {
        let list = list_extensions(&vec![scan(Tier::User, vec![candidate(dir, Some(text.clone()), icons)])]);
        assert_eq!(list.len(), 1);
        let expected =
            expected.map(|name| Path::new(dir).join(name).to_string_lossy().into_owned());
        assert_eq!(list[0].icon_path, expected);
    }
}

#[test]
fn where_the_descriptor_and_the_icons_lie() {
    let dir = "/user/com.example.tool";
    assert_eq!(
        manifest_file(dir),
        Path::new(dir).join("CSXS").join("manifest.xml").to_string_lossy().into_owned()
    );
    assert_ne!(manifest_file(dir), dir);
    let icons = icon_files(dir);
    let expected: Vec<String> = ["icon.png", "Icon.png", "icon.svg", "logo.png"]
        .iter()
        .map(|n| Path::new(dir).join(n).to_string_lossy().into_owned())
        .collect();
    assert_eq!(icons, expected);
}

#[test]
fn discovery_keeps_the_descriptor_fields() {
    let list = list_extensions(&vec![scan(
        Tier::System,
        vec![candidate("/system/tool", Some(manifest("com.example.tool", "Tool", "4.5")), vec![true])],
    )]);
    assert_eq!(list.len(), 1);
    assert_eq!(list[0].name, "Tool");
    assert_eq!(list[0].version, "4.5");
    assert_eq!(list[0].host_list.len(), 1);
    assert_eq!(list[0].host_list[0].name, "Photoshop");
    assert_eq!(list[0].host_list[0].version, "20");
}

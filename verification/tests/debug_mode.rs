use cep_extensions::debug_mode::{
    debug_flag_name, debug_mode_source, debug_store, get_debug_mode, set_debug_mode,
};
use cep_extensions::folders::{Environment, Platform};

fn home(dir: Option<&str>) -> Environment {
    Environment { appdata: None, userprofile: None, home: dir.map(|s| s.to_string()) }
}

#[test]
fn flag_is_read_from_the_newest_runtime() {
    assert_eq!(
        debug_mode_source(Platform::Windows, &home(None)),
        Some("SOFTWARE\\Adobe\\CSXS.11".to_string())
    );
    assert_eq!(
        debug_mode_source(Platform::MacOs, &home(Some("/Users/me"))),
        Some("/Users/me/Library/Preferences/com.adobe.CSXS.11.plist".to_string())
    );
    assert_eq!(
        debug_mode_source(Platform::MacOs, &home(None)),
        Some("/Library/Preferences/com.adobe.CSXS.11.plist".to_string())
    );
    assert_eq!(debug_mode_source(Platform::Other, &home(Some("/home/me"))), None);
    assert_eq!(debug_flag_name(), "PlayerDebugMode");
}

#[test]
fn stores_of_other_runtimes() {
    assert_eq!(
        debug_store(Platform::Windows, &home(None), "9"),
        Some("SOFTWARE\\Adobe\\CSXS.9".to_string())
    );
    assert_eq!(
        debug_store(Platform::MacOs, &home(Some("/Users/me")), "7"),
        Some("/Users/me/Library/Preferences/com.adobe.CSXS.7.plist".to_string())
    );
}

#[test]
fn flag_is_set_where_the_store_says_one() {
    assert!(get_debug_mode(Platform::Windows, &Some("1".to_string())));
    assert!(!get_debug_mode(Platform::Windows, &Some("0".to_string())));
    assert!(!get_debug_mode(Platform::Windows, &Some(" 1".to_string())));
    assert!(!get_debug_mode(Platform::Windows, &Some("1\n".to_string())));
    assert!(!get_debug_mode(Platform::Windows, &Some("".to_string())));
    assert!(!get_debug_mode(Platform::Windows, &None));
    assert!(get_debug_mode(Platform::MacOs, &Some("1\n".to_string())));
    assert!(get_debug_mode(Platform::MacOs, &Some("  1 \t".to_string())));
    assert!(!get_debug_mode(Platform::MacOs, &Some("0\n".to_string())));
    assert!(!get_debug_mode(Platform::MacOs, &Some("11\n".to_string())));
    assert!(!get_debug_mode(Platform::MacOs, &Some("".to_string())));
    assert!(!get_debug_mode(Platform::MacOs, &None));
    assert!(!get_debug_mode(Platform::Other, &Some("1".to_string())));
    assert!(!get_debug_mode(Platform::Other, &None));
}

#[test]
fn flag_is_written_for_every_runtime() {
    let writes = set_debug_mode(Platform::Windows, &home(None), true).unwrap();
    let got: Vec<(String, String)> =
        writes.iter().map(|w| (w.location.clone(), w.value.clone())).collect();
    let expected: Vec<(String, String)> = ["11", "10", "9", "8", "7"]
        .iter()
        .map(|v| (format!("SOFTWARE\\Adobe\\CSXS.{}", v), "1".to_string()))
        .collect();
    assert_eq!(got, expected);
    let writes = set_debug_mode(Platform::MacOs, &home(Some("/Users/me")), false).unwrap();
    let got: Vec<(String, String)> =
        writes.iter().map(|w| (w.location.clone(), w.value.clone())).collect();
    let expected: Vec<(String, String)> = ["11", "10", "9", "8", "7"]
        .iter()
        .map(|v| (format!("/Users/me/Library/Preferences/com.adobe.CSXS.{}.plist", v), "0".to_string()))
        .collect();
    assert_eq!(got, expected);
}

#[test]
fn flag_cannot_be_written_on_other_platforms() {
    assert_eq!(
        set_debug_mode(Platform::Other, &home(None), true).map(|w| w.len()),
        Err("Unsupported platform".to_string())
    );
    assert_eq!(
        set_debug_mode(Platform::Other, &home(Some("/home/me")), false).map(|w| w.len()),
        Err("Unsupported platform".to_string())
    );
}

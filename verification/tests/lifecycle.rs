use cep_extensions::folders::{SearchPath, Tier};
use cep_extensions::lifecycle::{
    install_extension, removal_outcome, uninstall_extension, uninstall_targets, InstallAction,
    InstallResult,
};
use cep_extensions::package::ExtractStep;
use cep_extensions::registry::{list_extensions, Candidate, FolderScan};
use std::io::{Cursor, Write};
use std::path::Path;
use zip::write::SimpleFileOptions;
use zip::ZipWriter;

const DESCRIPTOR: &str = "<ExtensionManifest ExtensionBundleId=\"com.example.tool\" ExtensionBundleVersion=\"1.2.3\">\n<Menu>Tool</Menu>\n<Host Name=\"AEFT\" Version=\"16\" />\n<Host Name=\"PPRO\" />\n</ExtensionManifest>\n";

fn zxp(entries: &[(&str, &[u8])]) -> Vec<u8> {
    let mut writer = ZipWriter::new(Cursor::new(Vec::new()));
    let options = SimpleFileOptions::default();
    for (name, data) in entries {
        if name.ends_with('/') {
            writer.add_directory(name.to_string(), options).unwrap();
        } else {
            writer.start_file(name.to_string(), options).unwrap();
            writer.write_all(data).unwrap();
        }
    }
    writer.finish().unwrap().into_inner()
}

fn sample() -> Vec<u8> {
    zxp(&[
        ("META-INF/signatures.xml", b"<sig/>"),
        ("CSXS/manifest.xml", DESCRIPTOR.as_bytes()),
        ("index.html", b"<html/>"),
    ])
}

fn finished(action: InstallAction) -> InstallResult {
    match action {
        InstallAction::Finish(result) => result,
        other => panic!("{:?}", other),
    }
}

fn target() -> String {
    Path::new("/user/extensions").join("com.example.tool").to_string_lossy().into_owned()
}

#[test]
fn installing_into_a_fresh_directory() {
    let probe = match install_extension(Ok(sample()), "/user/extensions") {
        InstallAction::ProbeTarget(probe) => probe,
        other => panic!("{:?}", other),
    };
    assert_eq!(probe.staged.target, target());
    assert_eq!(probe.staged.info.id, "com.example.tool");
    let creation = match probe.answered(false) {
        InstallAction::CreateTarget(creation) => creation,
        other => panic!("{:?}", other),
    };
    assert_eq!(creation.staged.target, target());
    let extraction = match creation.answered(Ok(())) {
        InstallAction::Extract(extraction) => extraction,
        other => panic!("{:?}", other),
    };
    assert_eq!(extraction.target, target());
    assert_eq!(extraction.lost, 0);
    assert_eq!(extraction.steps.len(), 2);
    match &extraction.steps[0] {
        ExtractStep::WriteFile { path, data } => {
            assert_eq!(
                path,
                &Path::new(&target()).join("CSXS/manifest.xml").to_string_lossy().into_owned()
            );
            assert_eq!(data, DESCRIPTOR.as_bytes());
        }
        other => panic!("{:?}", other),
    }
    let result = extraction.answered(0);
    assert!(result.success);
    assert_eq!(result.message, "'Tool' installed successfully!");
    assert_eq!(result.skipped_entries, 0);
    let installed = result.extension.unwrap();
    assert_eq!(installed.id, "com.example.tool");
    assert_eq!(installed.version, "1.2.3");
    assert_eq!(installed.install_path, Some(target()));
    assert!(installed.icon_path.is_none());
}

#[test]
fn installing_over_an_earlier_installation_removes_it_first() {
    let probe = match install_extension(Ok(sample()), "/user/extensions") {
        InstallAction::ProbeTarget(probe) => probe,
        other => panic!("{:?}", other),
    };
    let removal = match probe.answered(true) {
        InstallAction::RemoveTarget(removal) => removal,
        other => panic!("{:?}", other),
    };
    assert_eq!(removal.staged.target, target());
    let creation = match removal.answered(Ok(())) {
        InstallAction::CreateTarget(creation) => creation,
        other => panic!("{:?}", other),
    };
    assert_eq!(creation.staged.target, target());
    let extraction = match creation.answered(Ok(())) {
        InstallAction::Extract(extraction) => extraction,
        other => panic!("{:?}", other),
    };
    assert_eq!(extraction.target, target());
    let dir = target();
    assert!(extraction.steps.iter().all(|s| match s {
        ExtractStep::MakeDir { path } => Path::new(path).starts_with(&dir),
        ExtractStep::WriteFile { path, .. } => Path::new(path).starts_with(&dir),
    }));
    assert!(extraction.answered(0).success);
}

#[test]
fn a_target_that_cannot_be_removed_ends_the_installation() {
    let probe = match install_extension(Ok(sample()), "/user/extensions") {
        InstallAction::ProbeTarget(probe) => probe,
        other => panic!("{:?}", other),
    };
    let removal = match probe.answered(true) {
        InstallAction::RemoveTarget(removal) => removal,
        other => panic!("{:?}", other),
    };
    let result = finished(removal.answered(Err("Permission denied".to_string())));
    assert!(!result.success);
    assert_eq!(result.message, "Cannot remove existing installation: Permission denied");
    assert!(result.extension.is_none());
    assert_eq!(result.skipped_entries, 0);
}

#[test]
fn a_target_that_cannot_be_created_ends_the_installation() {
    let probe = match install_extension(Ok(sample()), "/user/extensions") {
        InstallAction::ProbeTarget(probe) => probe,
        other => panic!("{:?}", other),
    };
    let creation = match probe.answered(false) {
        InstallAction::CreateTarget(creation) => creation,
        other => panic!("{:?}", other),
    };
    let result = finished(creation.answered(Err("Read-only file system".to_string())));
    assert!(!result.success);
    assert_eq!(result.message, "Cannot create extension directory: Read-only file system");
    assert!(result.extension.is_none());
}

#[test]
fn a_package_without_descriptor_is_not_installed() {
    let result = finished(install_extension(Ok(zxp(&[("index.html", b"x")])), "/user/extensions"));
    assert!(!result.success);
    assert_eq!(result.message, "Invalid ZXP file: manifest.xml not found in ZXP");
    assert!(result.extension.is_none());
}

#[test]
fn a_file_that_is_no_package_is_not_installed() {
    let result = finished(install_extension(Ok(b"not a package".to_vec()), "/user/extensions"));
    assert!(!result.success);
    assert!(result.message.starts_with("Invalid ZXP file: Not a valid ZXP: "));
    assert!(result.extension.is_none());
}

#[test]
fn a_package_that_cannot_be_read_is_not_installed() {
    let result = finished(install_extension(Err("No such file".to_string()), "/user/extensions"));
    assert!(!result.success);
    assert_eq!(result.message, "Invalid ZXP file: Cannot open file: No such file");
}

#[test]
fn a_descriptor_without_identifier_is_not_installed() {
    let bytes = zxp(&[("CSXS/manifest.xml", b"<ExtensionManifest>")]);
    let result = finished(install_extension(Ok(bytes), "/user/extensions"));
    assert!(!result.success);
    assert_eq!(result.message, "Invalid ZXP file: Could not find extension ID in manifest");
}

#[test]
fn failed_steps_are_reported_and_do_not_fail_the_installation() {
    let extraction = || {
        let probe = match install_extension(Ok(sample()), "/user/extensions") {
            InstallAction::ProbeTarget(probe) => probe,
            other => panic!("{:?}", other),
        };
        let creation = match probe.answered(false) {
            InstallAction::CreateTarget(creation) => creation,
            other => panic!("{:?}", other),
        };
        match creation.answered(Ok(())) {
            InstallAction::Extract(extraction) => extraction,
            other => panic!("{:?}", other),
        }
    };
    let result = extraction().answered(1);
    assert!(result.success);
    assert_eq!(result.skipped_entries, 1);
    assert!(result.extension.is_some());
    let result = extraction().answered(2);
    assert_eq!(result.skipped_entries, 2);
    let result = extraction().answered(1000);
    assert!(result.success);
    assert_eq!(result.skipped_entries, 2);
    let mut x = extraction();
    x.lost = usize::MAX;
    assert_eq!(x.answered(2).skipped_entries, usize::MAX);
}

#[test]
fn an_installed_package_is_discovered_as_installed() {
    let probe = match install_extension(Ok(sample()), "/user/extensions") {
        InstallAction::ProbeTarget(probe) => probe,
        other => panic!("{:?}", other),
    };
    let creation = match probe.answered(false) {
        InstallAction::CreateTarget(creation) => creation,
        other => panic!("{:?}", other),
    };
    let extraction = match creation.answered(Ok(())) {
        InstallAction::Extract(extraction) => extraction,
        other => panic!("{:?}", other),
    };
    let written: Vec<u8> = extraction
        .steps
        .iter()
        .find_map(|s| match s {
            ExtractStep::WriteFile { path, data }
                if Path::new(path) == Path::new(&target()).join("CSXS").join("manifest.xml") =>
            {
                Some(data.clone())
            }
            _ => None,
        })
        .unwrap();
    let installed = extraction.answered(0).extension.unwrap();
    let scans = vec![FolderScan {
        tier: Tier::User,
        found: vec![Candidate {
            dir: target(),
            manifest: Some(String::from_utf8(written).unwrap()),
            icons: vec![],
        }],
    }];
    let list = list_extensions(&scans);
    assert_eq!(list.len(), 1);
    assert_eq!(list[0].id, installed.id);
    assert_eq!(list[0].version, installed.version);
    let hosts = |e: &cep_extensions::manifest::ExtensionInfo| -> Vec<(String, String)> {
        e.host_list.iter().map(|h| (h.name.clone(), h.version.clone())).collect()
    };
    assert_eq!(hosts(&list[0]), hosts(&installed));
    assert_eq!(
        hosts(&installed),
        vec![
            ("After Effects".to_string(), "16".to_string()),
            ("Premiere Pro".to_string(), "All".to_string())
        ]
    );
    assert_eq!(list[0].install_path, installed.install_path);
}

fn folders() -> Vec<SearchPath> {
    vec![
        SearchPath { dir: "/user/extensions".to_string(), tier: Tier::User },
        SearchPath { dir: "/system/extensions".to_string(), tier: Tier::System },
        SearchPath { dir: "/other/extensions".to_string(), tier: Tier::System },
    ]
}

#[test]
fn uninstalling_what_is_not_installed_fails() {
    let r = uninstall_extension(&folders(), "com.example.gone", &vec![false, false, false]);
    assert_eq!(r, Err("Extension 'com.example.gone' not found".to_string()));
    let r = uninstall_extension(&folders(), "com.example.gone", &vec![]);
    assert_eq!(r, Err("Extension 'com.example.gone' not found".to_string()));
    let r = uninstall_extension(&Vec::new(), "com.example.gone", &vec![true]);
    assert_eq!(r, Err("Extension 'com.example.gone' not found".to_string()));
}

#[test]
fn uninstalling_removes_the_first_directory_that_exists() {
    let below = |dir: &str| Path::new(dir).join("com.example.tool").to_string_lossy().into_owned();
    assert_eq!(
        uninstall_extension(&folders(), "com.example.tool", &vec![true, true, true]),
        Ok(below("/user/extensions"))
    );
    assert_eq!(
        uninstall_extension(&folders(), "com.example.tool", &vec![false, true, true]),
        Ok(below("/system/extensions"))
    );
    assert_eq!(
        uninstall_extension(&folders(), "com.example.tool", &vec![false, false, true, true]),
        Ok(below("/other/extensions"))
    );
}

#[test]
fn uninstall_targets_lie_in_every_search_path() {
    let below = |dir: &str| Path::new(dir).join("com.example.tool").to_string_lossy().into_owned();
    assert_eq!(
        uninstall_targets(&folders(), "com.example.tool"),
        vec![below("/user/extensions"), below("/system/extensions"), below("/other/extensions")]
    );
    assert!(uninstall_targets(&Vec::new(), "com.example.tool").is_empty());
}

#[test]
fn a_failed_removal_fails_the_uninstall() {
    assert_eq!(removal_outcome(Ok(())), Ok(()));
    assert_eq!(
        removal_outcome(Err("Permission denied".to_string())),
        Err("Cannot remove extension: Permission denied".to_string())
    );
}

#[test]
fn an_identifier_that_names_no_directory_is_not_uninstalled() {
    for id in ["", ".", "..", "a/b", "a\\b", "/", "../other", "com.example.tool/", "/etc", "c:tool"]
    {
        for present in [vec![true, true, true], vec![false, true, false], vec![], vec![false; 3]] {
            assert_eq!(
                uninstall_extension(&folders(), id, &present),
                Err(format!("Extension '{}' not found", id)),
                "{:?}",
                id
            );
        }
    }
}

#[test]
fn identifiers_with_dots_inside_are_uninstalled() {
    for id in ["com.example.tool", "...", "a..b", ".hidden", "tool.", "my:tool"] {
        assert_eq!(
            uninstall_extension(&folders(), id, &vec![true]),
            Ok(Path::new("/user/extensions").join(id).to_string_lossy().into_owned()),
            "{:?}",
            id
        );
    }
}

#[test]
fn a_package_whose_identifier_names_no_directory_is_not_installed() {
    for id in [".", "..", "../outside", "a/b", "a\\b", "/abs", "C:"] {
        let descriptor = format!("<Extension Id=\"{}\" Version=\"1.0\" />", id);
        let bytes = zxp(&[("CSXS/manifest.xml", descriptor.as_bytes())]);
        let result = finished(install_extension(Ok(bytes), "/user/extensions"));
        assert!(!result.success, "{:?}", id);
        assert_eq!(
            result.message,
            format!("Invalid ZXP file: Extension ID '{}' is not a directory name", id)
        );
        assert!(result.extension.is_none());
        assert_eq!(result.skipped_entries, 0);
    }
}

#[test]
fn nothing_is_unpacked_outside_the_target() {
    let bytes = zxp(&[
        ("CSXS/manifest.xml", DESCRIPTOR.as_bytes()),
        ("../../escape.txt", b"x"),
        ("/etc/passwd", b"x"),
        ("js/../../up.js", b"x"),
        ("js/ok.js", b"ok"),
    ]);
    let probe = match install_extension(Ok(bytes), "/user/extensions") {
        InstallAction::ProbeTarget(probe) => probe,
        other => panic!("{:?}", other),
    };
    let creation = match probe.answered(false) {
        InstallAction::CreateTarget(creation) => creation,
        other => panic!("{:?}", other),
    };
    let extraction = match creation.answered(Ok(())) {
        InstallAction::Extract(extraction) => extraction,
        other => panic!("{:?}", other),
    };
    let paths: Vec<String> = extraction
        .steps
        .iter()
        .map(|s| match s {
            ExtractStep::MakeDir { path } => path.clone(),
            ExtractStep::WriteFile { path, .. } => path.clone(),
        })
        .collect();
    let below = |name: &str| Path::new(&target()).join(name).to_string_lossy().into_owned();
    assert_eq!(paths, vec![below("CSXS/manifest.xml"), below("js/ok.js")]);
    assert_eq!(extraction.lost, 3);
    let result = extraction.answered(0);
    assert!(result.success);
    assert_eq!(result.skipped_entries, 3);
}

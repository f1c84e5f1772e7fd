use cep_extensions::manifest::{
    extract_attr, extract_text, format_host_name, parse_manifest_xml,
};

#[test]
fn bundle_level_identifier_and_version_are_recovered() {
    let xml = "<?xml version=\"1.0\"?>\n<ExtensionManifest ExtensionBundleId=\"com.example.bundle\" ExtensionBundleVersion=\"2.1.0\">\n</ExtensionManifest>";
    let info = parse_manifest_xml(xml).unwrap();
    assert_eq!(info.id, "com.example.bundle");
    assert_eq!(info.version, "2.1.0");
    assert!(info.install_path.is_none());
    assert!(info.icon_path.is_none());
}

#[test]
fn generic_internal_name_is_passed_over() {
    let xml = "<ExtensionManifest ExtensionBundleId=\"com.example.tool\">\n<Name>panel</Name>\n</ExtensionManifest>";
    let info = parse_manifest_xml(xml).unwrap();
    assert_eq!(info.name, "Tool");
}

#[test]
fn generic_internal_name_is_passed_over_in_any_case() {
    let xml = "<ExtensionManifest ExtensionBundleId=\"com.example.tool\">\n<Name>PaNeL</Name>\n";
    let info = parse_manifest_xml(xml).unwrap();
    assert_eq!(info.name, "Tool");
}

#[test]
fn every_generic_word_is_passed_over() {
    for word in ["main", "panel", "extension", "index", "ui", "app", "core", "popup"] {
        let xml = format!(
            "<ExtensionManifest ExtensionBundleId=\"com.example.tool\">\n<Name>{}</Name>\n",
            word
        );
        let info = parse_manifest_xml(&xml).unwrap();
        assert_eq!(info.name, "Tool");
    }
}

#[test]
fn internal_name_that_is_not_generic_is_taken() {
    let xml = "<ExtensionManifest ExtensionBundleId=\"com.example.tool\">\n  <Name> Colour Wheel </Name>\n";
    let info = parse_manifest_xml(xml).unwrap();
    assert_eq!(info.name, "Colour Wheel");
}

#[test]
fn fallback_name_skips_generic_and_domain_segments() {
    let xml = "<Extension Id=\"com.example.myCoolExt.main\" />";
    let info = parse_manifest_xml(xml).unwrap();
    assert_eq!(info.id, "com.example.myCoolExt.main");
    assert_eq!(info.name, "MyCoolExt");
}

#[test]
fn fallback_name_puts_spaces_for_separators() {
    let xml = "<Extension Id=\"com.example.my-cool_ext.main\" />";
    let info = parse_manifest_xml(xml).unwrap();
    assert_eq!(info.name, "My Cool Ext");
}

#[test]
fn fallback_name_takes_the_last_segment_where_none_is_eligible() {
    assert_eq!(parse_manifest_xml("<Extension Id=\"com.io\" />").unwrap().name, "Io");
    assert_eq!(parse_manifest_xml("<Extension Id=\"a.b\" />").unwrap().name, "B");
    assert_eq!(parse_manifest_xml("<Extension Id=\"net.ui.\" />").unwrap().name, "");
}

#[test]
fn fallback_name_needs_more_than_two_characters() {
    assert_eq!(parse_manifest_xml("<Extension Id=\"com.acme.ab\" />").unwrap().name, "Acme");
    assert_eq!(parse_manifest_xml("<Extension Id=\"com.acme.abc\" />").unwrap().name, "Abc");
}

#[test]
fn fallback_name_of_an_identifier_without_dots() {
    assert_eq!(parse_manifest_xml("<Extension Id=\"toolbox\" />").unwrap().name, "Toolbox");
}

#[test]
fn fallback_name_uses_the_full_upper_case_mapping() {
    let info = parse_manifest_xml("<Extension Id=\"com.example.\u{df}eta\" />").unwrap();
    assert_eq!(info.name, "SSeta");
}

#[test]
fn descriptor_without_identifier_is_rejected() {
    let xml = "<ExtensionManifest Version=\"7.0\">\n<Menu>Some Panel</Menu>\n<Host Name=\"PHSP\" />\n</ExtensionManifest>";
    let err = parse_manifest_xml(xml).unwrap_err();
    assert!(!err.is_empty());
    assert_eq!(err, "Could not find extension ID in manifest");
}

#[test]
fn empty_descriptor_is_rejected() {
    assert!(parse_manifest_xml("").is_err());
}

#[test]
fn the_first_line_that_offers_an_identifier_decides() {
    let xml = "<ExtensionManifest ExtensionBundleId=\"com.example.bundle\">\n<Extension Id=\"com.example.bundle.panel\" Version=\"1.0\" />";
    let info = parse_manifest_xml(xml).unwrap();
    assert_eq!(info.id, "com.example.bundle");
    assert_eq!(info.version, "1.0");
}

#[test]
fn later_values_of_a_field_are_ignored() {
    let xml = "<Extension Id=\"first.one\" Version=\"1.0\" />\n<Extension Id=\"second.one\" Version=\"2.0\" />\n<Menu>First</Menu>\n<Menu>Second</Menu>";
    let info = parse_manifest_xml(xml).unwrap();
    assert_eq!(info.id, "first.one");
    assert_eq!(info.version, "1.0");
    assert_eq!(info.name, "First");
}

#[test]
fn identifier_of_the_list_element_is_the_last_resort() {
    let xml = "<ExtensionList> <Item ExtensionBundleId=\"com.listed.ext\" />";
    let info = parse_manifest_xml(xml).unwrap();
    assert_eq!(info.id, "com.listed.ext");
}

#[test]
fn version_defaults_to_unknown() {
    let info = parse_manifest_xml("<Extension Id=\"com.example.tool\">").unwrap();
    assert_eq!(info.version, "Unknown");
    assert_eq!(info.description, "");
    assert_eq!(info.author, "");
    assert_eq!(info.cep_version, "");
    assert!(info.host_list.is_empty());
}

#[test]
fn all_fields_of_a_full_descriptor() {
    let xml = "<?xml version=\"1.0\" encoding=\"UTF-8\"?>\r\n\
<ExtensionManifest Version=\"7.0\" ExtensionBundleId=\"com.acme.paint\" ExtensionBundleVersion=\"3.2.1\" ExtensionBundleName=\"Acme Paint\" CEPVersion=\"9.0\">\r\n\
  <Author>  Acme Corp </Author>\r\n\
  <Description>Paints things.</Description>\r\n\
  <ExtensionList>\r\n\
    <Extension Id=\"com.acme.paint.panel\" Version=\"3.2.1\" />\r\n\
  </ExtensionList>\r\n\
  <ExecutionEnvironment>\r\n\
    <HostList>\r\n\
      <Host Name=\"PHSP\" Version=\"[14.0,99.9]\" />\r\n\
      <Host Name='ilst' />\r\n\
      <Host Name=\"\" Version=\"1.0\" />\r\n\
      <Host Name=\"KBRG\" Version=\"5\" />\r\n\
    </HostList>\r\n\
  </ExecutionEnvironment>\r\n\
  <Menu>Paint Panel</Menu>\r\n\
  <Name>main</Name>\r\n\
</ExtensionManifest>\r\n";
    let info = parse_manifest_xml(xml).unwrap();
    assert_eq!(info.id, "com.acme.paint");
    assert_eq!(info.name, "Acme Paint");
    assert_eq!(info.version, "3.2.1");
    assert_eq!(info.cep_version, "9.0");
    assert_eq!(info.author, "Acme Corp");
    assert_eq!(info.description, "Paints things.");
    let hosts: Vec<(String, String)> =
        info.host_list.iter().map(|h| (h.name.clone(), h.version.clone())).collect();
    assert_eq!(
        hosts,
        vec![
            ("Photoshop".to_string(), "[14.0,99.9]".to_string()),
            ("Illustrator".to_string(), "All".to_string()),
            ("KBRG".to_string(), "5".to_string()),
        ]
    );
}

#[test]
fn menu_text_is_preferred_to_a_later_internal_name() {
    let xml = "<Extension Id=\"com.example.tool\" />\n<Menu>Shown Name</Menu>\n<Name>Inner Name</Name>";
    assert_eq!(parse_manifest_xml(xml).unwrap().name, "Shown Name");
}

#[test]
fn empty_menu_text_offers_no_name() {
    let xml = "<Extension Id=\"com.example.tool\" />\n<Menu>   </Menu>\n<Name>Inner Name</Name>";
    assert_eq!(parse_manifest_xml(xml).unwrap().name, "Inner Name");
}

#[test]
fn attribute_in_double_quotes() {
    assert_eq!(extract_attr("<Extension Id=\"com.a.b\" />", "Id"), Some("com.a.b".to_string()));
}

#[test]
fn attribute_in_single_quotes() {
    assert_eq!(extract_attr("<Extension Id='com.a.b' />", "Id"), Some("com.a.b".to_string()));
}

#[test]
fn attribute_value_is_trimmed() {
    assert_eq!(
        extract_attr("<Host Name=\" \t PHSP\u{a0} \" />", "Name"),
        Some("PHSP".to_string())
    );
}

#[test]
fn empty_attribute_value_counts_as_missing() {
    assert_eq!(extract_attr("<Host Name=\"   \" />", "Name"), None);
    assert_eq!(extract_attr("<Host Name=\"\" Name='second' />", "Name"), Some("second".to_string()));
}

#[test]
fn attribute_without_closing_quote_counts_as_missing() {
    assert_eq!(extract_attr("<Host Name=\"PHSP />", "Name"), None);
    assert_eq!(extract_attr("<Host />", "Name"), None);
}

#[test]
fn the_first_occurrence_of_an_attribute_is_read() {
    assert_eq!(
        extract_attr("<Host Name=\"one\" Name=\"two\" />", "Name"),
        Some("one".to_string())
    );
}

#[test]
fn element_text_is_trimmed() {
    assert_eq!(extract_text("  <Menu>  My Panel </Menu>", "Menu"), "My Panel");
}

#[test]
fn element_text_is_empty_where_a_tag_is_missing() {
    assert_eq!(extract_text("<Menu>My Panel", "Menu"), "");
    assert_eq!(extract_text("My Panel</Menu>", "Menu"), "");
    assert_eq!(extract_text("<Menu></Menu>", "Menu"), "");
    assert_eq!(extract_text("</Menu>text<Menu>", "Menu"), "");
    assert_eq!(extract_text("", "Menu"), "");
}

#[test]
fn host_codes_map_to_display_names() {
    let table = [
        ("PPRO", "Premiere Pro"),
        ("PREMIERE", "Premiere Pro"),
        ("AEFT", "After Effects"),
        ("AFTEREFFECTS", "After Effects"),
        ("ILST", "Illustrator"),
        ("ILLUSTRATOR", "Illustrator"),
        ("PHSP", "Photoshop"),
        ("PHOTOSHOP", "Photoshop"),
        ("AUDE", "Audition"),
        ("AUDITION", "Audition"),
        ("DRWV", "Dreamweaver"),
        ("DREAMWEAVER", "Dreamweaver"),
        ("FLPR", "Animate"),
        ("ANIMATE", "Animate"),
        ("IDSN", "InDesign"),
        ("INDESIGN", "InDesign"),
        ("RUSH", "Premiere Rush"),
        ("PREMIERERUSH", "Premiere Rush"),
        ("CHAR", "Character Animator"),
        ("CHARACTER", "Character Animator"),
    ];
    for (code, name) in table {
        assert_eq!(format_host_name(code), name);
        assert_eq!(format_host_name(&code.to_lowercase()), name);
    }
}

#[test]
fn unknown_host_code_stands_for_itself() {
    assert_eq!(format_host_name("PHXS"), "PHXS");
    assert_eq!(format_host_name("kbrg"), "kbrg");
    assert_eq!(format_host_name(""), "");
}

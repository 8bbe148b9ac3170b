use pisi_center::command::PisiError;
use pisi_center::index::XmlParser;

const SAMPLE: &str = r#"<PISI>
  <Package name="alpha" partOf="System" packageSize="123" installedSize="456" isa="x86_64">
    <Summary>First package</Summary>
    <Description>Alpha description</Description>
    <License>GPL-2.0</License>
    <Version>1.2.3</Version>
    <History>
      <Update release="2" version="1.2.3" date="2024-01-01"/>
    </History>
    <History>
      <Comment>container without an update record</Comment>
    </History>
    <Dependencies>
      <Dependency version=">=1.0">libfoo</Dependency>
      <Dependency>libbar</Dependency>
    </Dependencies>
  </Package>
  <Group>
    <Package name="beta"/>
  </Group>
</PISI>"#;

#[test]
fn parses_one_record_per_package_element() {
    let packages = XmlParser::parse_pisi_index(SAMPLE).unwrap();
    assert_eq!(packages.len(), 2);
    assert_eq!(packages[0].name, "alpha");
    assert_eq!(packages[1].name, "beta");
}

#[test]
fn finds_package_elements_at_any_depth() {
    // `beta` sits inside a Group element, not directly under the root
    let packages = XmlParser::parse_pisi_index(SAMPLE).unwrap();
    assert_eq!(packages[1].name, "beta");
    assert_eq!(packages[1].part_of, "");
}

#[test]
fn reads_attribute_and_text_fields() {
    let packages = XmlParser::parse_pisi_index(SAMPLE).unwrap();
    let alpha = &packages[0];
    assert_eq!(alpha.summary, "First package");
    assert_eq!(alpha.description, "Alpha description");
    assert_eq!(alpha.license, "GPL-2.0");
    assert_eq!(alpha.version, "1.2.3");
    assert_eq!(alpha.part_of, "System");
    assert_eq!(alpha.isa, "x86_64");
    assert_eq!(alpha.package_size, 123);
    assert_eq!(alpha.installed_size, 456);
}

#[test]
fn missing_size_attributes_default_to_zero() {
    let packages = XmlParser::parse_pisi_index(SAMPLE).unwrap();
    let beta = &packages[1];
    assert_eq!(beta.package_size, 0);
    assert_eq!(beta.installed_size, 0);
    assert_eq!(beta.summary, "");
    assert_eq!(beta.isa, "");
}

#[test]
fn unparsable_size_attribute_defaults_to_zero() {
    let xml = r#"<I><Package name="p" packageSize="notanumber" installedSize="99999999999999999999999"/></I>"#;
    let packages = XmlParser::parse_pisi_index(xml).unwrap();
    assert_eq!(packages[0].package_size, 0);
    assert_eq!(packages[0].installed_size, 0);
}

#[test]
fn history_container_without_update_contributes_nothing() {
    let packages = XmlParser::parse_pisi_index(SAMPLE).unwrap();
    let alpha = &packages[0];
    // two History containers, only one with an Update record
    assert_eq!(alpha.history.len(), 1);
    assert_eq!(alpha.history[0].version, "1.2.3");
    assert_eq!(alpha.history[0].release, 2);
    assert_eq!(alpha.history[0].date, "2024-01-01");
}

#[test]
fn unparsable_release_defaults_to_one() {
    let xml = r#"<I><Package name="p"><History><Update version="1" release="soon"/></History></Package></I>"#;
    let packages = XmlParser::parse_pisi_index(xml).unwrap();
    assert_eq!(packages[0].history.len(), 1);
    assert_eq!(packages[0].history[0].release, 1);
    assert_eq!(packages[0].history[0].date, "");
}

#[test]
fn zero_release_defaults_to_one() {
    // release is a positive integer: a parsed 0 falls back to 1
    let xml = r#"<I><Package name="p"><History><Update version="1" release="0"/></History></Package></I>"#;
    let packages = XmlParser::parse_pisi_index(xml).unwrap();
    assert_eq!(packages[0].history.len(), 1);
    assert_eq!(packages[0].history[0].release, 1);
}

#[test]
fn missing_release_defaults_to_one() {
    let xml = r#"<I><Package name="p"><History><Update version="2"/></History></Package></I>"#;
    let packages = XmlParser::parse_pisi_index(xml).unwrap();
    assert_eq!(packages[0].history[0].release, 1);
    assert_eq!(packages[0].history[0].version, "2");
}

#[test]
fn dependencies_read_text_and_version_attribute() {
    let packages = XmlParser::parse_pisi_index(SAMPLE).unwrap();
    let alpha = &packages[0];
    assert_eq!(alpha.dependencies.len(), 2);
    assert_eq!(alpha.dependencies[0].name, "libfoo");
    assert_eq!(alpha.dependencies[0].version, ">=1.0");
    assert_eq!(alpha.dependencies[1].name, "libbar");
    assert_eq!(alpha.dependencies[1].version, "");
}

#[test]
fn malformed_document_is_a_parse_failure() {
    let r = XmlParser::parse_pisi_index("<unclosed>");
    match r {
        Err(PisiError::ParseFailure(_)) => {}
        _ => panic!("expected a parse failure"),
    }
}

#[test]
fn empty_text_is_a_parse_failure() {
    assert!(XmlParser::parse_pisi_index("").is_err());
}

#[test]
fn aggregate_buckets_two_packages() {
    // one package in "System", one with no partOf declared at all
    let xml = r#"<I><Package name="a" partOf="System"/><Package name="b"/></I>"#;
    let packages = XmlParser::parse_pisi_index(xml).unwrap();
    assert_eq!(packages.len(), 2);
    let components = XmlParser::parse_components(&packages);
    assert_eq!(components.len(), 2);
    assert_eq!(components[0].name, "");
    assert_eq!(components[0].package_count, 1);
    assert_eq!(components[1].name, "System");
    assert_eq!(components[1].package_count, 1);
}

#[test]
fn aggregate_is_sorted_with_one_entry_per_component() {
    let xml = r#"<I>
      <Package name="a" partOf="x.z"/>
      <Package name="b" partOf="x.a"/>
      <Package name="c" partOf="x.z"/>
      <Package name="d" partOf="x.m"/>
      <Package name="e" partOf="x.a"/>
      <Package name="f" partOf="x.z"/>
    </I>"#;
    let packages = XmlParser::parse_pisi_index(xml).unwrap();
    let components = XmlParser::parse_components(&packages);
    let got: Vec<(String, usize)> =
        components.iter().map(|c| (c.name.clone(), c.package_count)).collect();
    assert_eq!(
        got,
        vec![
            ("x.a".to_string(), 2),
            ("x.m".to_string(), 1),
            ("x.z".to_string(), 3),
        ]
    );
}

#[test]
fn aggregate_counts_sum_to_record_total() {
    let packages = XmlParser::parse_pisi_index(SAMPLE).unwrap();
    let components = XmlParser::parse_components(&packages);
    let total: usize = components.iter().map(|c| c.package_count).sum();
    assert_eq!(total, packages.len());
}

#[test]
fn aggregate_of_empty_catalog_is_empty() {
    let components = XmlParser::parse_components(&Vec::new());
    assert!(components.is_empty());
}

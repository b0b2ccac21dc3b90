use web_modules::vendor::{
    build_vendor_specs, merge_vendor_specs, parse_spec, specs_from_entries, specs_from_manifest,
    vendor_specs, ManifestError, VendorError,
};
use web_modules::PackageSpec;

fn names(specs: &[PackageSpec]) -> Vec<&str> {
    specs.iter().map(PackageSpec::name).collect()
}

#[test]
fn parse_spec_handles_bare_scoped_and_ranged() {
    assert_eq!(parse_spec("lit").name(), "lit");
    assert_eq!(parse_spec("lit@^3").name(), "lit");
    assert_eq!(parse_spec("@lit/context").name(), "@lit/context");
    assert_eq!(parse_spec("@lit/context@^1").name(), "@lit/context");
}

#[test]
fn parse_spec_reads_the_range() {
    assert_eq!(parse_spec("lit").range(), "*");
    assert_eq!(parse_spec("lit@^3").range(), "^3");
    assert_eq!(parse_spec("@lit/context").range(), "*");
    assert_eq!(parse_spec("@lit/context@^1").range(), "^1");
}

#[test]
fn parse_spec_goes_by_the_last_mark() {
    assert_eq!(parse_spec("a@b@c").name(), "a@b");
    assert_eq!(parse_spec("a@b@c").range(), "c");
    assert_eq!(parse_spec("lit@").name(), "lit");
    assert_eq!(parse_spec("lit@").range(), "");
    assert_eq!(parse_spec("@").name(), "@");
    assert_eq!(parse_spec("@").range(), "*");
    assert_eq!(parse_spec("").name(), "");
    assert_eq!(parse_spec("ü@1").name(), "ü");
}

#[test]
fn vendor_specs_requires_a_source_when_asked() {
    assert!(build_vendor_specs(&[], &[], true).is_err());
    assert!(build_vendor_specs(&[], &[], false).unwrap().is_empty());
}

#[test]
fn vendor_specs_name_the_missing_source() {
    let error = build_vendor_specs(&[], &[Vec::new()], true).unwrap_err();
    assert!(matches!(error, VendorError::NoSource));
    assert_eq!(
        error.message(),
        "vendor: give package specs (e.g. lit@^3) or --manifest <package.json>"
    );
}

#[test]
fn vendor_specs_from_positional_specs() {
    let specs =
        build_vendor_specs(&["lit@^3".into(), "@lit/context@^1".into()], &[], true).unwrap();
    assert_eq!(names(&specs), ["lit", "@lit/context"]);
}

#[test]
fn vendor_specs_reads_a_manifest() {
    let manifest = Ok(r#"{"dependencies":{"ms":"^2.1.3"}}"#.to_string());
    let specs = vendor_specs(&[], &[manifest], true).unwrap();
    assert_eq!(names(&specs), ["ms"]);
    assert_eq!(specs[0].range(), "^2.1.3");
}

#[test]
fn vendor_specs_positional_wins_over_manifest_duplicate() {
    let manifest = Ok(r#"{"dependencies":{"lit":"^2","ms":"^2"}}"#.to_string());
    let specs = vendor_specs(&["lit@^3".into()], &[manifest], true).unwrap();
    // lit (positional, first) then ms (manifest); the manifest's lit is deduped out.
    assert_eq!(names(&specs), ["lit", "ms"]);
    assert_eq!(specs[0].range(), "^3");
}

#[test]
fn vendor_specs_keep_the_first_of_each_name() {
    let one = vec![PackageSpec::npm("a", "1"), PackageSpec::npm("b", "1")];
    let two = vec![PackageSpec::npm("b", "2"), PackageSpec::npm("c", "2")];
    let specs = build_vendor_specs(&["c@0".into(), "c@9".into()], &[one, two], false).unwrap();
    assert_eq!(names(&specs), ["c", "a", "b"]);
    let ranges: Vec<&str> = specs.iter().map(PackageSpec::range).collect();
    assert_eq!(ranges, ["0", "1", "1"]);
}

#[test]
fn manifest_gives_its_string_dependencies_by_name() {
    let text = r#"{"name":"x","devDependencies":{"q":"1"},
        "dependencies":{"b":"^2","@a/a":"~1","c":7}}"#;
    let specs = specs_from_manifest(text).unwrap();
    assert_eq!(names(&specs), ["@a/a", "b"]);
    let ranges: Vec<&str> = specs.iter().map(PackageSpec::range).collect();
    assert_eq!(ranges, ["~1", "^2"]);
}

#[test]
fn manifest_without_dependencies_asks_for_nothing() {
    assert!(specs_from_manifest("{}").unwrap().is_empty());
    assert!(specs_from_manifest("[1]").unwrap().is_empty());
    assert!(specs_from_manifest(r#"{"dependencies":3}"#).unwrap().is_empty());
}

#[test]
fn manifest_that_is_no_json_is_refused() {
    let error = specs_from_manifest("{").unwrap_err();
    assert!(matches!(error, ManifestError::Malformed(_)));
    assert_eq!(error.message(), "EOF while parsing an object at line 1 column 1");
}

#[test]
fn entries_become_specs_in_order() {
    let entries = [("z".to_string(), "1".to_string()), ("a@b".to_string(), String::new())];
    let specs = specs_from_entries(&entries);
    assert_eq!(names(&specs), ["z", "a@b"]);
    assert_eq!(specs[0].range(), "1");
    assert_eq!(specs[1].range(), "");
    assert!(specs_from_entries(&[]).is_empty());
}

#[test]
fn first_failing_manifest_is_the_error() {
    let good = || Ok(r#"{"dependencies":{"a":"1"}}"#.to_string());
    let malformed = || Ok("{".to_string());
    let unread = || Err("not found".to_string());
    let packages = ["lit@^3".to_string()];

    let error = vendor_specs(&packages, &[good(), unread(), malformed()], false).unwrap_err();
    assert!(matches!(&error, VendorError::Manifest(ManifestError::Unread(r)) if r == "not found"));
    assert_eq!(error.message(), "not found");

    let error = vendor_specs(&packages, &[good(), malformed(), unread()], true).unwrap_err();
    assert!(matches!(error, VendorError::Manifest(ManifestError::Malformed(_))));
    assert_eq!(error.message(), "EOF while parsing an object at line 1 column 1");

    let specs = vendor_specs(&packages, &[good(), good()], true).unwrap();
    assert_eq!(names(&specs), ["lit", "a"]);
    assert!(vendor_specs(&[], &[Ok("{}".to_string())], false).unwrap().is_empty());
    let error = vendor_specs(&[], &[Ok("{}".to_string())], true).unwrap_err();
    assert!(matches!(error, VendorError::NoSource));
}

#[test]
fn outcomes_are_merged_unless_one_failed() {
    let a = vec![PackageSpec::npm("a", "1")];
    let b = vec![PackageSpec::npm("a", "2"), PackageSpec::npm("b", "2")];
    let specs = merge_vendor_specs(&["c".into()], vec![Ok(a.clone()), Ok(b)], true).unwrap();
    assert_eq!(names(&specs), ["c", "a", "b"]);
    let failed = |reason: &str| Err(ManifestError::Unread(reason.to_string()));
    let outcomes = vec![Ok(a), failed("one"), failed("two")];
    assert_eq!(merge_vendor_specs(&[], outcomes, false).unwrap_err().message(), "one");
}

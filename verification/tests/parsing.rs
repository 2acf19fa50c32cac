//! Tests of specification parsing, version parsing and rendering, and
//! constraint matching.

use cargo_download::constraint::{Crate, CrateError, CrateVersion, CrateVersionError};
use cargo_download::version::Version;

#[test]
fn parse_bare_name_ok() {
    let c = Crate::from_str("foo").unwrap();
    assert_eq!(c.name(), "foo");
    assert!(c.exact_version().is_none());
    assert_eq!(c.display_string(), "foo=*");
}

#[test]
fn parse_bare_name_trims_whitespace() {
    let c = Crate::from_str("  foo \t").unwrap();
    assert_eq!(c.name(), "foo");
}

#[test]
fn invalid_name_with_space_fails() {
    // a space is not a name character, and there is no `=` in sight
    let r = Crate::from_str("foo bar");
    match r {
        Err(CrateError::Name(n)) => assert_eq!(n, "foo bar"),
        _ => panic!("expected an invalid-name error"),
    }
}

#[test]
fn invalid_name_empty_fails() {
    assert!(matches!(Crate::from_str(""), Err(CrateError::Name(_))));
    assert!(matches!(Crate::from_str("   "), Err(CrateError::Name(_))));
}

#[test]
fn name_with_constraint_is_not_charset_checked() {
    // with a constraint present, the name part is only trimmed
    let c = Crate::from_str("foo bar=1.0.0").unwrap();
    assert_eq!(c.name(), "foo bar");
}

#[test]
fn parse_exact_constraint() {
    let c = Crate::from_str("foo==1.2.3").unwrap();
    assert_eq!(c.name(), "foo");
    let v = c.exact_version().unwrap();
    assert_eq!(v.major, 1);
    assert_eq!(v.minor, 2);
    assert_eq!(v.patch, 3);
    assert!(v.pre.is_empty());
    assert!(v.build.is_empty());
}

#[test]
fn parse_range_constraint() {
    let c = Crate::from_str("foo=^1.0.0").unwrap();
    assert_eq!(c.name(), "foo");
    assert!(c.exact_version().is_none());
    assert_eq!(c.display_string(), "foo=^1.0.0");
}

#[test]
fn parse_constraint_trims_whitespace() {
    let c = Crate::from_str(" foo = ^1.0.0 ").unwrap();
    assert_eq!(c.name(), "foo");
    assert_eq!(c.display_string(), "foo=^1.0.0");
}

#[test]
fn invalid_exact_version_reports_syntax() {
    match Crate::from_str("foo==abc") {
        Err(CrateError::Version(CrateVersionError::Syntax(t))) => assert_eq!(t, "abc"),
        _ => panic!("expected a version-syntax error"),
    }
}

#[test]
fn invalid_range_reports_semantics() {
    assert!(matches!(
        Crate::from_str("foo=notarange!!!"),
        Err(CrateError::Version(CrateVersionError::Semantics(_)))
    ));
}

#[test]
fn version_parse_full() {
    let v = Version::parse("1.0.0-alpha.1+build.5").unwrap();
    assert_eq!(v.major, 1);
    assert_eq!(v.minor, 0);
    assert_eq!(v.patch, 0);
    assert_eq!(v.pre.len(), 2);
    assert_eq!(v.build.len(), 2);
    assert_eq!(v.version_string(), "1.0.0-alpha.1+build.5");
}

#[test]
fn version_parse_rejects_malformed() {
    assert!(Version::parse("").is_none());
    assert!(Version::parse("1.2").is_none());
    assert!(Version::parse("01.0.0").is_none());
    assert!(Version::parse("1.2.3-").is_none());
    assert!(Version::parse("1.2.3+").is_none());
    assert!(Version::parse("1.2.3-a..b").is_none());
    assert!(Version::parse("1.2.3-01").is_none());
    assert!(Version::parse("99999999999999999999.0.0").is_none());
    assert!(Version::parse("1.2.3 ").is_none());
}

#[test]
fn version_numerals_at_the_u64_limit() {
    let v = Version::parse("18446744073709551615.0.0").unwrap();
    assert_eq!(v.major, u64::MAX);
    // one past the limit is rejected, as the range grammar's parser does
    assert!(Version::parse("18446744073709551616.0.0").is_none());
}

#[test]
fn numeric_identifiers_precede_alphanumeric_ones() {
    let num = Version::parse("1.0.0-1").unwrap();
    let alpha = Version::parse("1.0.0-alpha").unwrap();
    assert!(num.precedes_or_equals(&alpha));
    assert!(!alpha.precedes_or_equals(&num));
    // numeric identifiers compare numerically: 2 < 11
    let two = Version::parse("1.0.0-2").unwrap();
    let eleven = Version::parse("1.0.0-11").unwrap();
    assert!(two.precedes_or_equals(&eleven));
    assert!(!eleven.precedes_or_equals(&two));
}

#[test]
fn parse_trims_all_whitespace_kinds() {
    let c = Crate::from_str("\r\n demo \t=\n ^1.0 \r").unwrap();
    assert_eq!(c.name(), "demo");
    assert_eq!(c.display_string(), "demo=^1.0");
}

#[test]
fn version_render_parse_round_trip() {
    for text in ["0.0.0", "1.2.3", "10.20.30", "1.0.0-alpha", "1.0.0-alpha.beta.2",
        "2.0.0+build-7", "3.1.4-rc.1+sha.abcdef"] {
        let v = Version::parse(text).unwrap();
        assert_eq!(v.version_string(), text);
        let again = Version::parse(&v.version_string()).unwrap();
        assert_eq!(again, v);
    }
}

#[test]
fn display_round_trip_exact() {
    // Display output of a parsed specification with an exact constraint,
    // re-parsed, yields an equal specification.
    let c = Crate::from_str("foo==1.2.3-rc.1+b2").unwrap();
    let shown = c.display_string();
    assert_eq!(shown, "foo==1.2.3-rc.1+b2");
    let again = Crate::from_str(&shown).unwrap();
    assert_eq!(again.name(), c.name());
    assert_eq!(again.exact_version().unwrap(), c.exact_version().unwrap());
    assert_eq!(again.display_string(), shown);
}

fn matches(constraint: &CrateVersion, text: &str) -> bool {
    constraint.matches(&Version::parse(text).unwrap())
}

#[test]
fn bare_version_range_has_caret_semantics() {
    // `foo=1.2.3` behaves as `^1.2.3`
    let c = Crate::from_str("foo=1.2.3").unwrap();
    let req = c.version_requirement();
    assert!(matches(req, "1.2.3"));
    assert!(matches(req, "1.2.4"));
    assert!(matches(req, "1.9.9"));
    assert!(!matches(req, "2.0.0"));
    assert!(!matches(req, "1.2.2"));
}

#[test]
fn exact_constraint_matches_only_itself() {
    let c = Crate::from_str("foo==1.2.3").unwrap();
    let req = c.version_requirement();
    assert!(matches(req, "1.2.3"));
    assert!(!matches(req, "1.2.3+build"));
    assert!(!matches(req, "1.2.4"));
    assert!(!matches(req, "1.2.3-rc.1"));
}

#[test]
fn bare_name_constraint_matches_every_version() {
    // a name without a constraint admits every syntactically valid version,
    // pre-releases included
    let c = Crate::from_str("demo").unwrap();
    let req = c.version_requirement();
    assert!(matches(req, "0.0.1"));
    assert!(matches(req, "99.99.99"));
    assert!(matches(req, "1.0.0-alpha"));
    assert!(matches(req, "2.0.0+build.3"));
}

#[test]
fn explicit_wildcard_equals_bare_name() {
    // `demo=*` is the same constraint a bare name gets
    let c = Crate::from_str("demo=*").unwrap();
    let req = c.version_requirement();
    assert!(matches(req, "1.0.0-alpha"));
    assert!(matches(req, "1.0.0"));
    assert_eq!(c.display_string(), "demo=*");
}

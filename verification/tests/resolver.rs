use novus::errors::{CommandError, ParseError};
use novus::versions::{ConstraintOp, VersionConstraint, Versions};

fn catalog(entries: &[&str]) -> Vec<String> {
    entries.iter().map(|s| s.to_string()).collect()
}

#[test]
fn plain_name_has_no_constraint() {
    let (name, constraint) = Versions::parse_package_details("express".to_string()).unwrap();
    assert_eq!(name, "express");
    assert!(constraint.is_none());
}

#[test]
fn latest_constraint_is_none() {
    let (name, constraint) =
        Versions::parse_package_details("express@latest".to_string()).unwrap();
    assert_eq!(name, "express");
    assert!(constraint.is_none());
}

#[test]
fn no_constraint_resolves_to_latest() {
    assert_eq!(
        Versions::resolve_full_version(None),
        Some("latest".to_string())
    );
}

#[test]
fn exact_triple_specifier_resolves_fully() {
    let (name, constraint) =
        Versions::parse_package_details("express@1.2.3".to_string()).unwrap();
    assert_eq!(name, "express");
    let constraint = constraint.unwrap();
    // a bare triple is a caret requirement, and still resolves to its own triple
    assert_eq!(
        constraint,
        VersionConstraint {
            op: ConstraintOp::Caret,
            major: 1,
            minor: Some(2),
            patch: Some(3),
        }
    );
    assert_eq!(
        Versions::resolve_full_version(Some(&constraint)),
        Some("1.2.3".to_string())
    );
}

#[test]
fn explicit_exact_specifier_resolves_fully() {
    let (_, constraint) = Versions::parse_package_details("express@=1.2.3".to_string()).unwrap();
    let constraint = constraint.unwrap();
    assert_eq!(constraint.op, ConstraintOp::Exact);
    assert_eq!(
        Versions::resolve_full_version(Some(&constraint)),
        Some("1.2.3".to_string())
    );
}

#[test]
fn caret_without_minor_needs_catalog() {
    let (name, constraint) = Versions::parse_package_details("express@^1".to_string()).unwrap();
    assert_eq!(name, "express");
    let constraint = constraint.unwrap();
    assert_eq!(constraint.op, ConstraintOp::Caret);
    assert_eq!(constraint.major, 1);
    assert!(constraint.minor.is_none());
    assert_eq!(Versions::resolve_full_version(Some(&constraint)), None);
}

#[test]
fn lower_bound_resolves_to_latest() {
    let (_, constraint) =
        Versions::parse_package_details("express@>=1.0.0".to_string()).unwrap();
    let constraint = constraint.unwrap();
    assert_eq!(constraint.op, ConstraintOp::GreaterEq);
    assert_eq!(
        Versions::resolve_full_version(Some(&constraint)),
        Some("latest".to_string())
    );
}

#[test]
fn upper_bound_inclusive_resolves_to_its_triple() {
    let (_, constraint) =
        Versions::parse_package_details("express@<=2.1.0".to_string()).unwrap();
    let constraint = constraint.unwrap();
    assert_eq!(constraint.op, ConstraintOp::LessEq);
    assert_eq!(
        Versions::resolve_full_version(Some(&constraint)),
        Some("2.1.0".to_string())
    );
}

#[test]
fn strict_upper_bound_needs_catalog() {
    let (_, constraint) =
        Versions::parse_package_details("express@<1.2.0".to_string()).unwrap();
    let constraint = constraint.unwrap();
    assert_eq!(constraint.op, ConstraintOp::Less);
    assert_eq!(Versions::resolve_full_version(Some(&constraint)), None);
}

#[test]
fn compound_range_keeps_first_comparator() {
    let (_, constraint) =
        Versions::parse_package_details("express@>=1.2.0, <2.0.0".to_string()).unwrap();
    let constraint = constraint.unwrap();
    assert_eq!(constraint.op, ConstraintOp::GreaterEq);
    assert_eq!(constraint.minor, Some(2));
}

#[test]
fn lone_wildcard_means_no_constraint() {
    let (name, constraint) = Versions::parse_package_details("express@*".to_string()).unwrap();
    assert_eq!(name, "express");
    assert!(constraint.is_none());
}

#[test]
fn malformed_requirement_is_a_parse_error() {
    let err = Versions::parse_package_details("express@not a version".to_string()).unwrap_err();
    assert!(matches!(err, ParseError::InvalidVersionNotation(_)));
}

#[test]
fn second_at_ends_the_constraint_text() {
    let err = Versions::parse_package_details("a@b@c".to_string()).unwrap_err();
    assert!(matches!(err, ParseError::InvalidVersionNotation(_)));
}

#[test]
fn strict_upper_bound_takes_entry_below() {
    let constraint = VersionConstraint {
        op: ConstraintOp::Less,
        major: 1,
        minor: Some(2),
        patch: Some(0),
    };
    let versions = catalog(&["1.2.0", "1.0.0", "2.0.0", "1.1.0"]);
    assert_eq!(
        Versions::resolve_partial_version(Some(&constraint), &versions),
        Ok("1.1.0".to_string())
    );
}

#[test]
fn strict_upper_bound_below_smallest_fails() {
    let constraint = VersionConstraint {
        op: ConstraintOp::Less,
        major: 1,
        minor: Some(0),
        patch: Some(0),
    };
    let versions = catalog(&["1.0.0", "1.1.0", "1.2.0", "2.0.0"]);
    assert_eq!(
        Versions::resolve_partial_version(Some(&constraint), &versions),
        Err(CommandError::InvalidVersion)
    );
}

#[test]
fn strict_upper_bound_missing_from_catalog_fails() {
    let constraint = VersionConstraint {
        op: ConstraintOp::Less,
        major: 1,
        minor: Some(3),
        patch: Some(0),
    };
    let versions = catalog(&["1.0.0", "1.1.0", "1.2.0", "2.0.0"]);
    assert_eq!(
        Versions::resolve_partial_version(Some(&constraint), &versions),
        Err(CommandError::InvalidVersion)
    );
}

#[test]
fn descending_scan_skips_malformed_entries() {
    let constraint = VersionConstraint {
        op: ConstraintOp::GreaterEq,
        major: 1,
        minor: Some(0),
        patch: Some(0),
    };
    let versions = catalog(&["1.0.0", "1.5.0", "2.0.0", "bogus"]);
    assert_eq!(
        Versions::resolve_partial_version(Some(&constraint), &versions),
        Ok("2.0.0".to_string())
    );
}

#[test]
fn malformed_entries_never_satisfy_a_positive_bound() {
    let constraint = VersionConstraint {
        op: ConstraintOp::GreaterEq,
        major: 1,
        minor: Some(0),
        patch: Some(0),
    };
    let versions = catalog(&["bogus", "also-bogus"]);
    assert_eq!(
        Versions::resolve_partial_version(Some(&constraint), &versions),
        Err(CommandError::InvalidVersion)
    );
}

#[test]
fn prerelease_entries_never_satisfy_plain_constraints() {
    let constraint = VersionConstraint {
        op: ConstraintOp::Caret,
        major: 1,
        minor: None,
        patch: None,
    };
    let versions = catalog(&["1.0.0", "1.5.0-beta"]);
    assert_eq!(
        Versions::resolve_partial_version(Some(&constraint), &versions),
        Ok("1.0.0".to_string())
    );
}

#[test]
fn prerelease_only_catalog_fails() {
    let constraint = VersionConstraint {
        op: ConstraintOp::GreaterEq,
        major: 1,
        minor: Some(0),
        patch: Some(0),
    };
    let versions = catalog(&["2.0.0-rc.1"]);
    assert_eq!(
        Versions::resolve_partial_version(Some(&constraint), &versions),
        Err(CommandError::InvalidVersion)
    );
}

#[test]
fn partial_strict_upper_bound_scans_downward() {
    let constraint = VersionConstraint {
        op: ConstraintOp::Less,
        major: 1,
        minor: None,
        patch: None,
    };
    let versions = catalog(&["0.5.0", "1.0.0"]);
    assert_eq!(
        Versions::resolve_partial_version(Some(&constraint), &versions),
        Ok("0.5.0".to_string())
    );
}

#[test]
fn unsatisfiable_constraint_fails() {
    let constraint = VersionConstraint {
        op: ConstraintOp::Greater,
        major: 9,
        minor: Some(0),
        patch: Some(0),
    };
    let versions = catalog(&["1.0.0", "2.0.0"]);
    assert_eq!(
        Versions::resolve_partial_version(Some(&constraint), &versions),
        Err(CommandError::InvalidVersion)
    );
}

#[test]
fn triple_renders_in_decimal() {
    assert_eq!(Versions::to_string(1, 22, 333), "1.22.333");
    assert_eq!(Versions::to_string(0, 0, 0), "0.0.0");
    assert_eq!(
        Versions::to_string(u64::MAX, 0, 1),
        "18446744073709551615.0.1"
    );
}

#[test]
fn sort_orders_by_raw_string() {
    let mut versions = catalog(&["9.0.0", "10.0.0", "1.2.3"]);
    Versions::sort(&mut versions);
    // raw string order, not semantic order: a known, kept limitation
    assert_eq!(versions, catalog(&["1.2.3", "10.0.0", "9.0.0"]));
}

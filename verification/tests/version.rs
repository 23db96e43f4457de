use std::cmp::Ordering;
use std::collections::HashSet;

use ruget::Identifier::{AlphaNumeric, Numeric};
use ruget::{Component, Identifier, SemverErrorKind, Version};

const MAX_SAFE_INTEGER: u64 = 900_719_925_474_099;

#[test]
fn trivial_version_number() {
    let v = Version::parse("1.2.34").unwrap();

    assert_eq!(
        v,
        Version {
            major: 1,
            minor: 2,
            patch: 34,
            revision: 0,
            build: Vec::new(),
            pre_release: Vec::new(),
        }
    );
}

#[test]
fn version_with_build() {
    let v = Version::parse("1.2.34+123.456").unwrap();

    assert_eq!(
        v,
        Version {
            major: 1,
            minor: 2,
            patch: 34,
            revision: 0,
            build: vec![Numeric(123), Numeric(456)],
            pre_release: Vec::new(),
        }
    );
    assert_eq!(v.build, vec![Numeric(123), Numeric(456)]);
}

#[test]
fn version_with_pre_release() {
    let v = Version::parse("1.2.34-abc.123").unwrap();

    assert_eq!(
        v,
        Version {
            major: 1,
            minor: 2,
            patch: 34,
            revision: 0,
            pre_release: vec![AlphaNumeric("abc".into()), Numeric(123)],
            build: Vec::new(),
        }
    );
}

#[test]
fn version_with_pre_release_and_build() {
    let v = Version::parse("1.2.34-abc.123+1").unwrap();

    assert_eq!(
        v,
        Version {
            major: 1,
            minor: 2,
            patch: 34,
            revision: 0,
            pre_release: vec![AlphaNumeric("abc".into()), Numeric(123)],
            build: vec![Numeric(1),]
        }
    );
    assert_eq!(v.major, 1);
    assert_eq!(v.minor, 2);
    assert_eq!(v.patch, 34);
    assert_eq!(v.revision, 0);
    assert_eq!(v.build, vec![Numeric(1)]);
    assert_eq!(v.to_string(), "1.2.34-abc.123+1");
}

#[test]
fn pre_release_that_could_look_numeric_at_first() {
    let v = Version::parse("1.0.0-rc.2-migration").unwrap();

    assert_eq!(
        v,
        Version {
            major: 1,
            minor: 0,
            patch: 0,
            revision: 0,
            pre_release: vec![
                Identifier::AlphaNumeric("rc".into()),
                Identifier::AlphaNumeric("2-migration".into())
            ],
            build: vec![],
        }
    );
}

#[test]
fn comparison_with_different_major_version() {
    let lesser_version = Version {
        major: 1,
        minor: 2,
        patch: 34,
        revision: 0,
        pre_release: vec![AlphaNumeric("abc".into()), Numeric(123)],
        build: vec![],
    };
    let greater_version = Version {
        major: 2,
        minor: 2,
        patch: 34,
        revision: 0,
        pre_release: vec![AlphaNumeric("abc".into()), Numeric(123)],
        build: vec![],
    };
    assert_eq!(lesser_version.cmp(&greater_version), Ordering::Less);
    assert_eq!(greater_version.cmp(&lesser_version), Ordering::Greater);
}

#[test]
fn comparison_with_different_minor_version() {
    let lesser_version = Version {
        major: 1,
        minor: 2,
        patch: 34,
        revision: 0,
        pre_release: vec![AlphaNumeric("abc".into()), Numeric(123)],
        build: vec![],
    };
    let greater_version = Version {
        major: 1,
        minor: 3,
        patch: 34,
        revision: 0,
        pre_release: vec![AlphaNumeric("abc".into()), Numeric(123)],
        build: vec![],
    };
    assert_eq!(lesser_version.cmp(&greater_version), Ordering::Less);
    assert_eq!(greater_version.cmp(&lesser_version), Ordering::Greater);
}

#[test]
fn comparison_with_different_patch_version() {
    let lesser_version = Version {
        major: 1,
        minor: 2,
        patch: 34,
        revision: 0,
        pre_release: vec![AlphaNumeric("abc".into()), Numeric(123)],
        build: vec![],
    };
    let greater_version = Version {
        major: 1,
        minor: 2,
        patch: 56,
        revision: 0,
        pre_release: vec![AlphaNumeric("abc".into()), Numeric(123)],
        build: vec![],
    };
    assert_eq!(lesser_version.cmp(&greater_version), Ordering::Less);
    assert_eq!(greater_version.cmp(&lesser_version), Ordering::Greater);
}

fn pre(list: Vec<Identifier>) -> Version {
    Version {
        major: 1,
        minor: 0,
        patch: 0,
        revision: 0,
        pre_release: list,
        build: vec![],
    }
}

#[test]
fn comparison_with_different_pre_release_version() {
    let v1_alpha = Version {
        major: 1,
        minor: 0,
        patch: 0,
        revision: 0,
        pre_release: vec![AlphaNumeric("alpha".into())],
        build: vec![],
    };
    let v1_alpha1 = Version {
        major: 1,
        minor: 0,
        patch: 0,
        revision: 0,
        pre_release: vec![AlphaNumeric("alpha".into()), Numeric(1)],
        build: vec![],
    };
    assert_eq!(v1_alpha.cmp(&v1_alpha1), Ordering::Less);
    let v1_alpha_beta = Version {
        major: 1,
        minor: 0,
        patch: 0,
        revision: 0,
        pre_release: vec![AlphaNumeric("alpha".into()), AlphaNumeric("beta".into())],
        build: vec![],
    };
    assert_eq!(v1_alpha1.cmp(&v1_alpha_beta), Ordering::Less);
    let v1_beta = Version {
        major: 1,
        minor: 0,
        patch: 0,
        revision: 0,
        pre_release: vec![AlphaNumeric("beta".into())],
        build: vec![],
    };
    assert_eq!(v1_alpha_beta.cmp(&v1_beta), Ordering::Less);
    let v1_beta2 = Version {
        major: 1,
        minor: 0,
        patch: 0,
        revision: 0,
        pre_release: vec![AlphaNumeric("beta".into()), Numeric(2)],
        build: vec![],
    };
    assert_eq!(v1_beta.cmp(&v1_beta2), Ordering::Less);
    let v1_beta11 = Version {
        major: 1,
        minor: 0,
        patch: 0,
        revision: 0,
        pre_release: vec![AlphaNumeric("beta".into()), Numeric(11)],
        build: vec![],
    };
    assert_eq!(v1_beta2.cmp(&v1_beta11), Ordering::Less);
    let v1_rc1 = Version {
        major: 1,
        minor: 0,
        patch: 0,
        revision: 0,
        pre_release: vec![AlphaNumeric("rc".into()), Numeric(1)],
        build: vec![],
    };
    assert_eq!(v1_beta11.cmp(&v1_rc1), Ordering::Less);
    let v1 = Version {
        major: 1,
        minor: 0,
        patch: 0,
        revision: 0,
        pre_release: vec![],
        build: vec![],
    };
    assert_eq!(v1_rc1.cmp(&v1), Ordering::Less);
    let v1_alpha1_capitalized = Version {
        major: 1,
        minor: 0,
        patch: 0,
        revision: 0,
        pre_release: vec![AlphaNumeric("Alpha".into()), Numeric(1)],
        build: vec![],
    };
    assert_eq!(v1_alpha1.cmp(&v1_alpha1_capitalized), Ordering::Equal);
}

#[test]
fn individual_version_component_has_an_upper_bound() {
    let out_of_range = MAX_SAFE_INTEGER + 1;
    let v = Version::parse(&format!("1.2.{}", out_of_range));
    assert_eq!(v.err().expect("Parse should have failed.").to_string(), "Error parsing semver string. Integer component of semver string is larger than MAX_SAFE_INTEGER: 900719925474100");
}

#[test]
fn version_string_limited_to_256_characters() {
    let prebuild = (0..257).map(|_| "X").collect::<Vec<_>>().join("");
    let version_string = format!("1.1.1-{}", prebuild);
    let v = Version::parse(&version_string.clone());

    assert_eq!(
        v.err().expect("Parse should have failed").to_string(),
        "Error parsing semver string. Semver string can't be longer than 256 characters."
    );

    let ok_version = version_string[0..255].to_string();
    let v = Version::parse(&ok_version);
    assert!(v.is_ok());
}

fn json_field(text: &str, field: &str) -> String {
    let value: serde_json::Value = serde_json::from_str(text).unwrap();
    value[field].as_str().unwrap().to_string()
}

fn json_record(field: &str, text: String) -> String {
    let mut map = serde_json::Map::new();
    map.insert(field.to_string(), serde_json::Value::String(text));
    serde_json::to_string(&serde_json::Value::Object(map)).unwrap()
}

#[test]
fn read_version_from_string() {
    let v = Version::parse(&json_field(r#"{"version":"1.2.34-abc.213+2"}"#, "version")).unwrap();

    assert_eq!(
        v,
        Version {
            major: 1,
            minor: 2,
            patch: 34,
            revision: 0,
            pre_release: vec![
                Identifier::AlphaNumeric("abc".into()),
                Identifier::Numeric(213)
            ],
            build: vec![Identifier::Numeric(2)],
        }
    );
}

#[test]
fn serialize_a_version_to_string() {
    let output = json_record(
        "version",
        Version {
            major: 1,
            minor: 2,
            patch: 34,
            revision: 0,
            pre_release: vec![
                Identifier::AlphaNumeric("abc".into()),
                Identifier::Numeric(213),
            ],
            build: vec![Identifier::Numeric(2)],
        }
        .to_string(),
    );
    let expected: String = r#"{"version":"1.2.34-abc.213+2"}"#.into();

    assert_eq!(output, expected);
}

#[test]
fn serialize_a_version_with_rev_0_to_string() {
    let output = json_record(
        "version",
        Version {
            major: 1,
            minor: 2,
            patch: 34,
            revision: 0,
            pre_release: vec![],
            build: vec![],
        }
        .to_string(),
    );
    let expected: String = r#"{"version":"1.2.34"}"#.into();

    assert_eq!(output, expected);
}

#[test]
fn serialize_a_version_with_rev_1_to_string() {
    let output = json_record(
        "version",
        Version {
            major: 1,
            minor: 2,
            patch: 34,
            revision: 1,
            pre_release: vec![],
            build: vec![],
        }
        .to_string(),
    );
    let expected: String = r#"{"version":"1.2.34.1"}"#.into();

    assert_eq!(output, expected);
}

#[test]
fn missing_components_are_zero() {
    assert_eq!(Version::parse("7").unwrap(), Version::from((7, 0, 0)));
    assert_eq!(Version::parse("7.8").unwrap(), Version::from((7, 8, 0)));
    assert_eq!(Version::parse("1.2.3.4").unwrap(), Version::from((1, 2, 3, 4)));
    assert_eq!(Version::parse("1.2.3.4").unwrap().revision, 4);
    assert_ne!(Version::parse("1.2.3.4").unwrap(), Version::from((1, 2, 3)));
}

#[test]
fn text_round_trips() {
    for text in [
        "0.0.0",
        "1.2.3",
        "1.2.3.4",
        "10.20.30-alpha.1.x-y+build.5.00a",
        "1.0.0-0",
        "1.0.0+7",
        "900719925474099.0.0",
        "1.0.0-99999999999999999999999",
    ] {
        let version = Version::parse(text).unwrap();
        assert_eq!(version.to_string(), text);
        let again = Version::parse(&version.to_string()).unwrap();
        assert_eq!(again, version);
        assert_eq!(again.build, version.build);
    }
}

#[test]
fn digits_too_large_for_a_number_stay_text() {
    let version = Version::parse("1.0.0-99999999999999999999999.18446744073709551615").unwrap();
    assert_eq!(
        version.pre_release,
        vec![
            AlphaNumeric("99999999999999999999999".into()),
            Numeric(18446744073709551615)
        ]
    );
}

#[test]
fn leading_zeros_are_read_as_numbers() {
    let version = Version::parse("01.002.3-007").unwrap();
    assert_eq!(version, Version::from((1, 2, 3, 0, 7)));
    assert_eq!(version.to_string(), "1.2.3-7");
}

#[test]
fn build_takes_no_part_in_equality_or_order() {
    let a = Version::parse("1.2.3+one").unwrap();
    let b = Version::parse("1.2.3+two.3").unwrap();
    assert_eq!(a, b);
    assert_eq!(a.cmp(&b), Ordering::Equal);
    assert!(!(a < b) && !(b < a));
}

#[test]
fn order_is_total_on_samples() {
    let samples: Vec<Version> = [
        "0.0.0-0", "0.0.0", "1.0.0-alpha", "1.0.0-ALPHA.1", "1.0.0-alpha.beta", "1.0.0-beta",
        "1.0.0-beta.2", "1.0.0-beta.11", "1.0.0-rc.1", "1.0.0", "1.0.0.1-x", "1.0.0.1", "1.0.1",
        "1.1.0", "2.0.0",
    ]
    .iter()
    .map(|text| Version::parse(text).unwrap())
    .collect();
    for (i, a) in samples.iter().enumerate() {
        assert_eq!(a.cmp(a), Ordering::Equal);
        for (j, b) in samples.iter().enumerate() {
            assert_eq!(a.cmp(b), i.cmp(&j));
            assert_eq!(a.cmp(b), b.cmp(a).reverse());
            assert_eq!(a == b, i == j);
            for c in samples.iter() {
                if a <= b && b <= c {
                    assert!(a <= c);
                }
            }
        }
    }
}

#[test]
fn numbers_sort_below_texts() {
    assert_eq!(Numeric(u64::MAX).cmp(&AlphaNumeric("0a".into())), Ordering::Less);
    assert_eq!(AlphaNumeric("-".into()).cmp(&Numeric(0)), Ordering::Greater);
    assert_eq!(Numeric(2).cmp(&Numeric(11)), Ordering::Less);
    assert_eq!(AlphaNumeric("abc".into()).cmp(&AlphaNumeric("ABD".into())), Ordering::Less);
    assert_eq!(AlphaNumeric("abc".into()), AlphaNumeric("ABC".into()));
    assert_eq!(AlphaNumeric("ab".into()).cmp(&AlphaNumeric("abc".into())), Ordering::Less);
    assert_ne!(Numeric(1), AlphaNumeric("1".into()));
}

fn failure(text: &str) -> (SemverErrorKind, usize) {
    let error = Version::parse(text).err().expect("parse should have failed");
    assert_eq!(error.input(), text);
    (error.kind(), error.offset())
}

#[test]
fn errors_say_what_and_where() {
    assert_eq!(failure(""), (SemverErrorKind::IncompleteInput, 0));
    assert_eq!(failure("1."), (SemverErrorKind::IncompleteInput, 1));
    assert_eq!(failure("1.2.3-"), (SemverErrorKind::IncompleteInput, 5));
    assert_eq!(failure("1.2.3+"), (SemverErrorKind::IncompleteInput, 5));
    assert_eq!(
        failure("a.2.3"),
        (SemverErrorKind::InvalidComponent(Component::VersionCore), 0)
    );
    assert_eq!(
        failure("1..3"),
        (SemverErrorKind::InvalidComponent(Component::VersionCore), 2)
    );
    assert_eq!(
        failure("1.2.3-a..b"),
        (SemverErrorKind::InvalidComponent(Component::PreRelease), 8)
    );
    assert_eq!(
        failure("1.2.3+a.!"),
        (SemverErrorKind::InvalidComponent(Component::Build), 8)
    );
    assert_eq!(failure("1.2.3.4.5"), (SemverErrorKind::Other, 7));
    assert_eq!(failure("1.2.3 "), (SemverErrorKind::Other, 5));
    assert_eq!(failure("1.2.3-é"), (SemverErrorKind::InvalidComponent(Component::PreRelease), 6));
    assert_eq!(
        failure("1.900719925474100.3"),
        (SemverErrorKind::IntegerTooLarge(900719925474100), 2)
    );
    assert_eq!(
        failure("1.2.18446744073709551616"),
        (SemverErrorKind::IntegerParseError, 4)
    );
    assert_eq!(failure(&"1".repeat(257)), (SemverErrorKind::MaxLengthError, 0));
}

#[test]
fn error_messages() {
    let message = |text: &str| Version::parse(text).err().unwrap().to_string();
    assert_eq!(
        message("1."),
        "Error parsing semver string. Incomplete input to semver parser."
    );
    assert_eq!(
        message("x"),
        "Error parsing semver string. Failed to parse version core component of semver string."
    );
    assert_eq!(
        message("1.0.0-a..b"),
        "Error parsing semver string. Failed to parse pre-release component of semver string."
    );
    assert_eq!(
        message("1.0.0!"),
        "Error parsing semver string. An unspecified error occurred."
    );
    assert_eq!(
        message("99999999999999999999.0.0"),
        "Error parsing semver string. Failed to parse an integer component of a semver string: number too large to fit in target type"
    );
}

#[test]
fn location_counts_lines_and_columns() {
    let error = ruget::SemverError::new("1.2\n3.4\n\n5!6", 10, SemverErrorKind::Other);
    assert_eq!(error.location(), (3, 1));
    let error = ruget::SemverError::new("1.2\n3.4", 2, SemverErrorKind::Other);
    assert_eq!(error.location(), (0, 2));
    let error = ruget::SemverError::new("1.2\n3.4", 4, SemverErrorKind::Other);
    assert_eq!(error.location(), (1, 0));
    let error = ruget::SemverError::new("ab", 9, SemverErrorKind::Other);
    assert_eq!(error.location(), (0, 2));
    let long = "\n".repeat(40) + "abc";
    let error = ruget::SemverError::new(&long, 42, SemverErrorKind::Other);
    assert_eq!(error.location(), (40, 2));
    assert_eq!(Version::parse("1.2.x").err().unwrap().location(), (0, 4));
}

#[test]
fn parses_through_from_str() {
    let version: Version = "1.2.3-rc.1".parse().unwrap();
    assert_eq!(version, pre(vec![AlphaNumeric("rc".into()), Numeric(1)]).clone_with(1, 2, 3));
}

trait CloneWith {
    fn clone_with(&self, major: u64, minor: u64, patch: u64) -> Version;
}

impl CloneWith for Version {
    fn clone_with(&self, major: u64, minor: u64, patch: u64) -> Version {
        let mut copy = self.clone();
        copy.major = major;
        copy.minor = minor;
        copy.patch = patch;
        copy
    }
}

#[test]
fn equal_versions_have_equal_keys() {
    let texts = ["1.2.3-Alpha.1+x", "1.2.3-alpha.1+y", "1.2.3-ALPHA.1", "1.2.3-alpha.2", "1.2.3"];
    let versions: Vec<Version> = texts.iter().map(|t| Version::parse(t).unwrap()).collect();
    for a in &versions {
        for b in &versions {
            assert_eq!(a == b, a.key() == b.key());
        }
    }
    let keys: HashSet<_> = versions.iter().map(|v| v.key()).collect();
    assert_eq!(keys.len(), 3);
    assert_eq!(Numeric(7).key(), ruget::IdentifierKey::Numeric(7));
    assert_eq!(
        AlphaNumeric("rc-ß".into()).key(),
        ruget::IdentifierKey::Text("RC-SS".as_bytes().to_vec())
    );
}

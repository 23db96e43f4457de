use ruget::{Bound, Component, ComparatorSet, Predicate, Range, SemverError, SemverErrorKind, Version};

#[test]
fn plain_version_range() -> Result<(), SemverError> {
    let range: Range = "*".parse()?;
    assert_eq!(range.comparators().len(), 1);
    assert_eq!(range.comparators()[0].to_string(), "[0.0.0,)".to_string());

    Ok(())
}

#[test]
fn brackets_range() -> Result<(), SemverError> {
    let range: Range = "[1.2.3, 3.2.1)".parse()?;
    assert_eq!(range.comparators().len(), 1);
    assert_eq!(
        range.comparators()[0].to_string(),
        "[1.2.3,3.2.1)".to_string()
    );

    let range: Range = "[1,2.1]".parse()?;
    assert!(!range.is_floating());
    assert_eq!(range.comparators().len(), 1);
    assert_eq!(
        range.comparators()[0].to_string(),
        "[1.0.0,2.1.0]".to_string()
    );

    let range: Range = "[1.*,2.1]".parse()?;
    assert!(range.is_floating());
    assert_eq!(range.comparators().len(), 1);
    assert_eq!(
        range.comparators()[0].to_string(),
        "[1.0.0,2.1.0]".to_string()
    );

    let range: Range = "[1,2.1.*]".parse()?;
    assert!(range.is_floating());
    assert_eq!(range.comparators().len(), 1);
    assert_eq!(
        range.comparators()[0].to_string(),
        "[1.0.0,2.1.0]".to_string()
    );

    let range: Range = "[*]".parse()?;
    assert!(range.is_floating());
    assert_eq!(range.comparators().len(), 1);
    assert_eq!(range.comparators()[0].to_string(), "*".to_string());

    let range: Range = "[*,]".parse()?;
    assert!(range.is_floating());
    assert_eq!(range.comparators().len(), 1);
    assert_eq!(range.comparators()[0].to_string(), "*".to_string());

    let range: Range = "[,*)".parse()?;
    assert!(range.is_floating());
    assert_eq!(range.comparators().len(), 1);
    assert_eq!(range.comparators()[0].to_string(), "*".to_string());

    Ok(())
}

#[test]
fn pre_release_casing() -> Result<(), SemverError> {
    let version: Version = "1.2.3-alpha".parse()?;
    let range: Range = "1.2.3-ALPHA".parse()?;
    assert!(range.satisfies(&version));
    Ok(())
}

fn v(text: &str) -> Version {
    Version::parse(text).unwrap()
}

fn r(text: &str) -> Range {
    Range::parse(text).unwrap()
}

fn shown(text: &str) -> String {
    r(text).to_string()
}

#[test]
fn caret_literals() {
    let range = r("^1.2.3");
    assert!(range.satisfies(&v("1.9.9")));
    assert!(!range.satisfies(&v("2.0.0")));
    assert!(!range.satisfies(&v("2.0.0-alpha")));
    assert!(range.satisfies(&v("1.2.3")));
    assert!(!range.satisfies(&v("1.2.2")));
    assert_eq!(shown("^1.2.3"), "[1.2.3,2.0.0-0)");
    assert_eq!(shown("^0.1.2"), "[0.1.2,0.2.0-0)");
    assert_eq!(shown("^0.0.1"), "[0.0.1,0.0.2-0)");
    assert_eq!(shown("^0.0.1-beta"), "[0.0.1-beta,0.0.2-0)");
    assert_eq!(shown("^ 1"), "[1.0.0,2.0.0-0)");
}

#[test]
fn tilde_literals() {
    let range = r("~1.2.3");
    assert!(range.satisfies(&v("1.2.9")));
    assert!(!range.satisfies(&v("1.3.0")));
    assert!(!range.satisfies(&v("1.3.0-rc")));
    assert_eq!(shown("~1.2.3"), "[1.2.3,1.3.0-0)");
    assert_eq!(shown("~1"), "[1.0.0,2.0.0-0)");
    assert_eq!(shown("~2.4"), "[2.4.0,2.5.0-0)");
    assert_eq!(shown("~ 1.0"), "[1.0.0,1.1.0-0)");
    assert_eq!(shown("~*"), "[0.0.0,)");
}

#[test]
fn wildcard_literals() {
    let range = r("1.2.x");
    assert!(range.satisfies(&v("1.2.7")));
    assert!(!range.satisfies(&v("1.3.0")));
    assert!(range.is_floating());
    assert_eq!(shown("1.2.x"), "[1.2.0,1.3.0-0)");
    assert_eq!(shown("1.2.X"), "[1.2.0,1.3.0-0)");
    assert_eq!(shown("1.2.*"), "[1.2.0,1.3.0-0)");
    assert_eq!(shown("2.x.x"), "[2.0.0,3.0.0-0)");
    assert_eq!(shown("2.*.*"), "[2.0.0,3.0.0-0)");
    assert_eq!(shown("1.2.3.*"), "[1.2.3,1.2.4-0)");
    assert_eq!(shown("x"), "[0.0.0,)");
    assert_eq!(shown("1.2"), "[1.2.0,1.3.0-0)");
    assert_eq!(shown("1"), "[1.0.0,2.0.0-0)");
    assert!(!r("1.2").is_floating());
    assert!(r("*").is_floating());
}

#[test]
fn hyphen_literals() {
    let range = r("1 - 2");
    assert!(range.satisfies(&v("2.9.9")));
    assert!(!range.satisfies(&v("3.0.0")));
    assert!(range.satisfies(&v("1.0.0")));
    assert!(!range.satisfies(&v("0.9.9")));
    assert_eq!(shown("1 - 2"), "[1.0.0,3.0.0-0)");
    assert_eq!(shown("1.0.0 - 2.0.0"), "[1.0.0,2.0.0]");
    assert_eq!(shown("1.0 - 2.0"), "[1.0.0,2.1.0-0)");
    assert_eq!(shown("1.2 - 3.4.5"), "[1.2.0,3.4.5]");
    assert_eq!(shown("1.2.3 - 3.4"), "[1.2.3,3.5.0-0)");
    assert_eq!(shown("1.0.0-alpha - 2.0.0-beta"), "[1.0.0-alpha,2.0.0-beta]");
    assert_eq!(shown("1.2.3\t-\t*"), "[1.2.3,)");
    assert!(!r("1 - 2").is_floating());
    assert!(r("1 - 2.x").is_floating());
}

#[test]
fn operator_literals() {
    assert_eq!(shown("=1.0.0"), "[1.0.0]");
    assert_eq!(shown(">1.0.0"), "(1.0.0,)");
    assert_eq!(shown(">=1.0.0"), "[1.0.0,)");
    assert_eq!(shown("<2.0.0"), "(,2.0.0)");
    assert_eq!(shown("<=2.0.0"), "(,2.0.0]");
    assert_eq!(shown(">=   1.0.0"), "[1.0.0,)");
    assert_eq!(shown("<\t2.0.0"), "(,2.0.0)");
    assert_eq!(shown(">1"), "(1.0.0,)");
    assert_eq!(shown("<=2.0"), "(,2.0.0]");
    assert_eq!(shown(">1.1.0-beta-10"), "(1.1.0-beta-10,)");
    assert_eq!(shown("=1.2.3.4+b"), "[1.2.3.4+b]");
    assert!(r(">=1.0.0").is_floating());
    assert!(!r("=1.0.0").is_floating());
    assert!(r("=1.x").is_floating());
}

#[test]
fn pinned_literals() {
    assert_eq!(shown("1.2.3"), "[1.2.3]");
    assert_eq!(shown("1.2.3.4"), "[1.2.3.4]");
    assert!(!r("1.2.3").is_floating());
    assert!(r("1.2.3").satisfies(&v("1.2.3+build")));
    assert!(!r("1.2.3").satisfies(&v("1.2.3.1")));
    assert!(!r("1.2.3").satisfies(&v("1.2.3-rc")));
}

#[test]
fn bracket_literals() {
    assert_eq!(shown("[1.0.0]"), "[1.0.0]");
    assert_eq!(shown("[1.0,2.0)"), "[1.0.0,2.0.0)");
    assert_eq!(shown("(1,2]"), "(1.0.0,2.0.0]");
    assert_eq!(shown("( 1 , 2 )"), "(1.0.0,2.0.0)");
    assert_eq!(shown("[1.2.3,)"), "[1.2.3,)");
    assert_eq!(shown("[1.2.3,]"), "[1.2.3,)");
    assert_eq!(shown("(,2.0.0]"), "(,2.0.0]");
    assert_eq!(shown("[,]"), "*");
    assert_eq!(shown("[1.0.0-rc.1,1.0.0]"), "[1.0.0-rc.1,1.0.0]");
    assert!(r("[1.0.0-rc.1,1.0.0]").has_pre_release());
    assert!(!r("[1.0.0,2.0.0]").has_pre_release());
    assert!(!r("1.x").has_pre_release());
    assert!(!r("^1.2.3").has_pre_release());
    assert!(!r("<2.0.0-0").has_pre_release());
    assert!(r("<=2.0.0-0").has_pre_release());
    assert!(r(">=2.0.0-0").has_pre_release());
    assert!(r("<2.0.0-1").has_pre_release());
    assert!(r("^1.2.3-rc").has_pre_release());
}

#[test]
fn unions() {
    assert_eq!(shown("0.1.20 || 1.2.4"), "[0.1.20]||[1.2.4]");
    assert_eq!(shown(">=0.2.3 || <0.0.1"), "[0.2.3,)||(,0.0.1)");
    assert_eq!(shown("1.2.x||2.x"), "[1.2.0,1.3.0-0)||[2.0.0,3.0.0-0)");
    assert_eq!(shown("  1.5.0 - 2.1.0   ||   2.3.x  "), "[1.5.0,2.1.0]||[2.3.0,2.4.0-0)");
    let range = r("1.5.0 - 2.1.0 || 2.3.x");
    assert_eq!(range.comparators().len(), 2);
    assert!(range.satisfies(&v("2.0.0")));
    assert!(range.satisfies(&v("2.3.9")));
    assert!(!range.satisfies(&v("2.2.0")));
    assert!(range.is_floating());
}

fn failure(text: &str) -> (SemverErrorKind, usize) {
    let error = Range::parse(text).err().expect("parse should have failed");
    assert_eq!(error.input(), text);
    (error.kind(), error.offset())
}

#[test]
fn range_errors_say_what_and_where() {
    assert_eq!(failure(""), (SemverErrorKind::IncompleteInput, 0));
    assert_eq!(failure("   "), (SemverErrorKind::IncompleteInput, 2));
    assert_eq!(failure(">="), (SemverErrorKind::IncompleteInput, 1));
    assert_eq!(
        failure("%&W$@#$"),
        (SemverErrorKind::InvalidComponent(Component::VersionCore), 0)
    );
    assert_eq!(failure("1.2.3 ||"), (SemverErrorKind::IncompleteInput, 7));
    assert_eq!(
        failure("1.2.3 || || 2"),
        (SemverErrorKind::InvalidComponent(Component::VersionCore), 9)
    );
    assert_eq!(failure("1.2.3 2"), (SemverErrorKind::Other, 6));
    assert_eq!(failure("1.2.3 | 2"), (SemverErrorKind::Other, 6));
    assert_eq!(failure("1.2.3 -2"), (SemverErrorKind::Other, 6));
    assert_eq!(
        failure("1 - "),
        (SemverErrorKind::IncompleteInput, 3)
    );
    assert_eq!(
        failure("1.x.3"),
        (SemverErrorKind::InvalidComponent(Component::VersionCore), 4)
    );
    assert_eq!(
        failure("[1.0.0"),
        (SemverErrorKind::IncompleteInput, 5)
    );
    assert_eq!(
        failure("[1.0.0,2.0.0}"),
        (SemverErrorKind::InvalidComponent(Component::ClosingBracket), 12)
    );
    assert_eq!(
        failure("[]"),
        (SemverErrorKind::InvalidComponent(Component::VersionCore), 1)
    );
    assert_eq!(
        failure("[2.0.0,1.0.0]"),
        (SemverErrorKind::InvalidComponent(Component::Interval), 0)
    );
    assert_eq!(
        failure("1 || (1.0.0)"),
        (SemverErrorKind::InvalidComponent(Component::Interval), 5)
    );
    assert_eq!(
        failure("3 - 1"),
        (SemverErrorKind::InvalidComponent(Component::Interval), 0)
    );
    assert_eq!(
        failure("^900719925474100"),
        (SemverErrorKind::IntegerTooLarge(900719925474100), 1)
    );
    assert_eq!(
        failure("<1.0.0-"),
        (SemverErrorKind::IncompleteInput, 6)
    );
}

#[test]
fn exact_range_of_a_version_holds_it() {
    for text in ["0.0.0", "1.2.3", "1.2.3.4-rc.1+b.2", "7.0.0-x.y.z"] {
        let version = v(text);
        let range = r(&format!("={}", version.to_string()));
        assert!(range.satisfies(&version));
        assert_eq!(range.comparators().len(), 1);
    }
}

#[test]
fn any_holds_everything() {
    for range in [Range::any(), Range::any_floating()] {
        assert!(range.satisfies(&v("0.0.0-0")));
        assert!(range.satisfies(&v("900719925474099.0.0")));
        assert_eq!(range.to_string(), "*");
        assert!(!range.has_pre_release());
    }
    assert!(!Range::any().is_floating());
    assert!(Range::any_floating().is_floating());
}

fn samples() -> Vec<Version> {
    [
        "0.0.0-0", "0.0.0", "0.5.0", "1.0.0-alpha", "1.0.0", "1.2.2", "1.2.3-rc", "1.2.3",
        "1.2.3.1", "1.2.4", "1.9.9", "2.0.0-0", "2.0.0-beta", "2.0.0", "2.0.1", "3.0.0", "3.5.0",
        "4.0.0", "5.0.0-0", "5.0.0", "9.9.9",
    ]
    .iter()
    .map(|text| v(text))
    .collect()
}

fn ranges() -> Vec<Range> {
    [
        "*", "[,]", ">=1.2.3", ">1.2.3", "=1.2.3", "<1.2.3", "<=1.2.3", "[1.2.3,2.0.0)",
        "(1.0.0,3.0.0]", "^1.2.3", "~1.2.3", "1 - 2", "3 - 4", "<1 || 3 - 4", "0.5 - 3.5.0",
        "=2.0.0", "[2.0.0,2.0.0]", "(,2.0.0)", "(2.0.0,)", "1.x || 3.x", "[1.2.3,1.2.4) || >=4",
    ]
    .iter()
    .map(|text| r(text))
    .collect()
}

#[test]
fn intersection_holds_what_both_hold() {
    for a in ranges() {
        for b in ranges() {
            let both = a.intersect(&b);
            let other = b.intersect(&a);
            assert_eq!(both.is_some(), other.is_some());
            for version in samples() {
                let expected = a.satisfies(&version) && b.satisfies(&version);
                let got = both.as_ref().map_or(false, |r| r.satisfies(&version));
                let swapped = other.as_ref().map_or(false, |r| r.satisfies(&version));
                assert_eq!(got, expected, "{} and {} at {}", a.to_string(), b.to_string(), version.to_string());
                assert_eq!(swapped, expected);
            }
        }
    }
}

#[test]
fn difference_and_intersection_cover_the_range() {
    for a in ranges() {
        for b in ranges() {
            let rest = a.difference(&b);
            let both = a.intersect(&b);
            for version in samples() {
                let in_rest = rest.as_ref().map_or(false, |r| r.satisfies(&version));
                let in_both = both.as_ref().map_or(false, |r| r.satisfies(&version));
                assert_eq!(a.satisfies(&version), in_rest || in_both);
                if b.comparators().len() == 1 {
                    assert_eq!(in_rest, a.satisfies(&version) && !b.satisfies(&version));
                }
            }
        }
    }
}

#[test]
fn difference_of_an_interval_with_itself_is_empty() {
    for a in ranges() {
        if a.comparators().len() == 1 {
            assert!(a.difference(&a).is_none());
        }
    }
    assert!(r("1.x || 3.x").difference(&r("1.x || 3.x")).is_some());
}

fn shown_pair(result: Option<Range>) -> Option<String> {
    result.map(|range| range.to_string())
}

#[test]
fn intersection_literals() {
    let base = r(">=1.2.3");
    assert_eq!(shown_pair(base.intersect(&r("<=2.0.0"))), Some("[1.2.3,2.0.0]".to_string()));
    assert_eq!(shown_pair(base.intersect(&r("<2.0.0"))), Some("[1.2.3,2.0.0)".to_string()));
    assert_eq!(shown_pair(base.intersect(&r(">=2.0.0"))), Some("[2.0.0,)".to_string()));
    assert_eq!(shown_pair(base.intersect(&r(">1.0.0"))), Some("[1.2.3,)".to_string()));
    assert_eq!(shown_pair(base.intersect(&r(">1.2.3"))), Some("(1.2.3,)".to_string()));
    assert_eq!(shown_pair(base.intersect(&r("<=1.2.3"))), Some("[1.2.3]".to_string()));
    assert_eq!(shown_pair(base.intersect(&r("=1.1.1"))), None);
    assert_eq!(shown_pair(base.intersect(&r("<1.0.0"))), None);
    assert_eq!(shown_pair(r(">1.2.3").intersect(&r("<=1.2.3"))), None);
    assert_eq!(shown_pair(r("<1.2.3").intersect(&r(">=1.2.3"))), None);
    assert_eq!(
        shown_pair(r("<1 || 3 - 4").intersect(&r("0.5 - 3.5.0"))),
        Some("[0.5.0,1.0.0)||[3.0.0,3.5.0]".to_string())
    );
}

#[test]
fn difference_literals() {
    let base = r(">=1.2.3");
    assert_eq!(shown_pair(base.difference(&r("<=2.0.0"))), Some("(2.0.0,)".to_string()));
    assert_eq!(shown_pair(base.difference(&r("<2.0.0"))), Some("[2.0.0,)".to_string()));
    assert_eq!(shown_pair(base.difference(&r(">=2.0.0"))), Some("[1.2.3,2.0.0)".to_string()));
    assert_eq!(shown_pair(base.difference(&r(">2.0.0"))), Some("[1.2.3,2.0.0]".to_string()));
    assert_eq!(shown_pair(base.difference(&r(">1.0.0"))), None);
    assert_eq!(shown_pair(base.difference(&r(">1.2.3"))), Some("[1.2.3]".to_string()));
    assert_eq!(shown_pair(base.difference(&r("=1.1.1"))), Some("[1.2.3,)".to_string()));
    assert_eq!(
        shown_pair(base.difference(&r("=2.0.0"))),
        Some("[1.2.3,2.0.0)||(2.0.0,)".to_string())
    );
    assert_eq!(
        shown_pair(r("<1.2.3").difference(&r("=1.1.1"))),
        Some("(,1.1.1)||(1.1.1,1.2.3)".to_string())
    );
    assert_eq!(shown_pair(r(">=1").difference(&Range::any_floating())), None);
    assert_eq!(shown_pair(Range::any().difference(&r("[1,2]"))), Some("(,1.0.0)||(2.0.0,)".to_string()));
}

#[test]
fn containment_and_overlap() {
    let base = r(">=1.2.3");
    for inside in [">=2.0.0", "=2.0.0", "=1.2.3", "2 - 7", ">1.2.3", "0.1 || 1.4"] {
        assert!(base.allows_all(&r(inside)), "{}", inside);
    }
    for outside in ["=1.0.0", "<1.2", ">=1.2.2", "1 - 3", ">1.0.0", "*"] {
        assert!(!base.allows_all(&r(outside)), "{}", outside);
    }
    for overlapping in ["<=1.2.4", "=3.0.0", "<2", ">=3", "<=1.2.3", "1 - 3"] {
        assert!(base.allows_any(&r(overlapping)), "{}", overlapping);
    }
    for apart in ["<=1.2.0", "=1.0.0", "<1", "<1.2.3", "(,1.2.3)"] {
        assert!(!base.allows_any(&r(apart)), "{}", apart);
    }
    assert!(!r(">1.2.3").allows_any(&r("<=1.2.3")));
    assert!(r("=1.2.3").allows_all(&r("=1.2.3")));
}

#[test]
fn bounds_are_ordered_as_points() {
    let at = |text: &str| v(text);
    let lower_in = Bound::Lower(Predicate::Including(at("1.0.0")));
    let lower_ex = Bound::Lower(Predicate::Excluding(at("1.0.0")));
    let upper_in = Bound::Upper(Predicate::Including(at("1.0.0")));
    let upper_ex = Bound::Upper(Predicate::Excluding(at("1.0.0")));
    let ordered = [Bound::lower(), upper_ex, lower_in, lower_ex, Bound::upper()];
    for (i, a) in ordered.iter().enumerate() {
        for (j, b) in ordered.iter().enumerate() {
            let expected = if i < j { -1 } else if i == j { 0 } else { 1 };
            assert_eq!(a.sign(b), expected);
        }
    }
    assert_eq!(ordered[2].sign(&upper_in), 0);
    assert_eq!(ordered[1].sign(&Bound::Lower(Predicate::Excluding(at("0.9.0")))), 1);
}

#[test]
fn intervals_need_ordered_edges() {
    let at = |text: &str| v(text);
    let set = ComparatorSet::new(
        Bound::Lower(Predicate::Including(at("1.2.0"))),
        Bound::Upper(Predicate::Excluding(at("3.3.4"))),
        false,
    )
    .unwrap();
    assert_eq!(set.to_string(), "[1.2.0,3.3.4)");
    assert!(set.satisfies(&at("1.2.0")));
    assert!(!set.satisfies(&at("3.3.4")));
    assert!(!set.has_pre());
    assert!(ComparatorSet::new(
        Bound::Lower(Predicate::Excluding(at("1.0.0"))),
        Bound::Upper(Predicate::Including(at("1.0.0"))),
        false
    )
    .is_none());
    assert!(ComparatorSet::new(
        Bound::Lower(Predicate::Including(at("1.0.0"))),
        Bound::Upper(Predicate::Excluding(at("1.0.0"))),
        false
    )
    .is_none());
    assert!(ComparatorSet::new(
        Bound::Lower(Predicate::Including(at("1.0.0"))),
        Bound::Upper(Predicate::Including(at("1.0.0"))),
        false
    )
    .is_some());
    assert!(ComparatorSet::new(Bound::upper(), Bound::lower(), false).is_none());
    assert!(ComparatorSet::new(Bound::lower(), Bound::upper(), true).unwrap().is_floating());
    assert_eq!(Predicate::Including(at("1.0.0")).flip().has_pre_release(), false);
}

#[test]
fn range_texts_read_back() {
    for range in ranges() {
        let text = range.to_string();
        if text.contains('*') {
            continue;
        }
        let again = r(&text);
        assert_eq!(again.to_string(), text);
        for version in samples() {
            assert_eq!(again.satisfies(&version), range.satisfies(&version));
        }
    }
}
